//! The two forms of the answer to a search for a value.

use vstd::prelude::*;

use crate::proto::{Nodes, Store};

verus! {

/// The two forms of the answer to a search for a value.
#[derive(Debug, Clone, PartialEq)]
pub enum Oneof {
    Store(Store),
    Nodes(Nodes),
}

} // verus!
