//! Handing a value to the nodes near its key, one after the other.
//!
//! A sending is moved by its caller, who sends each message that it names and hands back what came
//! of it.

use vstd::prelude::*;

use crate::data::{Node, Stub};
use crate::error::{Status, TokadError};
use crate::proto;

verus! {

/// Messages that are to be sent, each to its node.
#[derive(Debug)]
pub struct Sending {
    pub left: Vec<(Node, proto::StoreRequest)>,
}

/// How a sending goes on.
#[derive(Debug)]
pub enum SendStep {
    /// A message is to be sent to a node.
    Send(Node, proto::StoreRequest),
    /// Nothing more is to be sent, and this is what came of it all.
    Done(Result<(), TokadError>),
}

/// The view of a `SendStep`: a sending that is done has failed with a status, or it has not.
pub enum SendStepView {
    Send(Node, proto::StoreRequest),
    Done(Option<Status>),
}

/// Whether a step has the given view.
pub open spec fn is_step(step: SendStep, view: SendStepView) -> bool {
    match (step, view) {
        (SendStep::Send(node, message), SendStepView::Send(to, what)) => node == to && message
            == what,
        (SendStep::Done(Ok(_)), SendStepView::Done(None)) => true,
        (SendStep::Done(Err(error)), SendStepView::Done(Some(status))) => error
            == TokadError::NetworkStatus(status),
        _ => false,
    }
}

/// The next message, or the end where none is left; and what is left then.
pub open spec fn next_send(left: Seq<(Node, proto::StoreRequest)>) -> (
    SendStepView,
    Seq<(Node, proto::StoreRequest)>,
) {
    if left.len() == 0 {
        (SendStepView::Done(None), left)
    } else {
        (SendStepView::Send(left[0].0, left[0].1), left.drop_first())
    }
}

/// What comes of a message that was sent: a failure ends the sending, and nobody else gets
/// anything; else the next message follows.
pub open spec fn after_send(
    left: Seq<(Node, proto::StoreRequest)>,
    failure: Option<Status>,
) -> (SendStepView, Seq<(Node, proto::StoreRequest)>) {
    match failure {
        Some(status) => (SendStepView::Done(Some(status)), Seq::empty()),
        None => next_send(left),
    }
}

/// The failure in what came of a message.
pub open spec fn failure_of(outcome: Result<Stub, Status>) -> Option<Status> {
    match outcome {
        Ok(_) => None,
        Err(status) => Some(status),
    }
}

impl Sending {
    /// Starts the sending.
    pub fn start(&mut self) -> (step: SendStep)
        ensures
            is_step(step, next_send(old(self).left@).0),
            final(self).left@ == next_send(old(self).left@).1,
    {
        if self.left.len() == 0 {
            return SendStep::Done(Ok(()));
        }
        let ghost before = self.left@;
        let (node, message): (Node, proto::StoreRequest) = self.left.remove(0);
        assert(self.left@ =~= before.drop_first());
        SendStep::Send(node, message)
    }

    /// Takes what came of the message that was sent last.
    pub fn on_reply(&mut self, outcome: Result<Stub, Status>) -> (step: SendStep)
        ensures
            is_step(step, after_send(old(self).left@, failure_of(outcome)).0),
            final(self).left@ == after_send(old(self).left@, failure_of(outcome)).1,
    {
        match outcome {
            Ok(_) => self.start(),
            Err(status) => {
                self.left.clear();
                assert(self.left@ =~= Seq::<(Node, proto::StoreRequest)>::empty());
                SendStep::Done(Err(TokadError::NetworkStatus(status)))
            },
        }
    }
}

/// A whole sending from the given step on, when `failures` says for each message in turn whether
/// it fails: the messages sent, and the failure that ends it.
pub open spec fn whole_sending(
    step: (SendStepView, Seq<(Node, proto::StoreRequest)>),
    failures: Seq<Option<Status>>,
) -> (Seq<(Node, proto::StoreRequest)>, Option<Status>)
    decreases failures.len(),
{
    match step.0 {
        SendStepView::Done(failure) => (Seq::empty(), failure),
        SendStepView::Send(node, message) => if failures.len() == 0 {
            (seq![(node, message)], None)
        } else {
            let (rest, failure) = whole_sending(
                after_send(step.1, failures[0]),
                failures.drop_first(),
            );
            (seq![(node, message)] + rest, failure)
        },
    }
}

/// Sending stops at the first failure: the messages are sent in order up to and including the
/// first that fails, whose status is the outcome; where none fails, all are sent and the sending
/// succeeds.
pub proof fn sending_stops_at_the_first_failure(
    left: Seq<(Node, proto::StoreRequest)>,
    failures: Seq<Option<Status>>,
)
    requires
        failures.len() == left.len(),
    ensures
        ({
            let (sent, failure) = whole_sending(next_send(left), failures);
            &&& failure is None <==> forall|i: int|
                0 <= i < failures.len() ==> (#[trigger] failures[i]) is None
            &&& failure is None ==> sent == left
            &&& failure is Some ==> exists|n: int|
                #![trigger failures[n]]
                {
                    &&& 0 <= n < failures.len()
                    &&& failures[n] == failure
                    &&& sent == left.take(n + 1)
                    &&& forall|i: int| 0 <= i < n ==> (#[trigger] failures[i]) is None
                }
        }),
    decreases left.len(),
{
    let (sent, failure) = whole_sending(next_send(left), failures);
    if left.len() == 0 {
        assert(sent =~= left);
    } else if failures[0] is Some {
        reveal_with_fuel(whole_sending, 2);
        assert(failure == failures[0]);
        assert(sent =~= left.take(1));
    } else {
        let rest = left.drop_first();
        let later = failures.drop_first();
        sending_stops_at_the_first_failure(rest, later);
        let (more, end) = whole_sending(next_send(rest), later);
        assert(sent =~= seq![left[0]] + more);
        assert(failure == end);
        assert forall|i: int| 1 <= i < failures.len() implies failures[i] == #[trigger] later[i
            - 1] by {}
        if failure is None {
            assert(sent =~= left);
            assert forall|i: int| 0 <= i < failures.len() implies (
            #[trigger] failures[i]) is None by {
                if i > 0 {
                    assert(later[i - 1] is None);
                }
            }
        } else {
            let m = choose|m: int|
                #![trigger later[m]]
                {
                    &&& 0 <= m < later.len()
                    &&& later[m] == end
                    &&& more == rest.take(m + 1)
                    &&& forall|i: int| 0 <= i < m ==> (#[trigger] later[i]) is None
                };
            assert(failures[m + 1] == failure);
            assert(sent =~= left.take(m + 2));
            assert forall|i: int| 0 <= i < m + 1 implies (#[trigger] failures[i]) is None by {
                if i > 0 {
                    assert(later[i - 1] is None);
                }
            }
        }
    }
}

/// A sending is done without failure exactly where a step says so, and a failure is told as the
/// status of the node that did not take its message.
pub proof fn a_failed_sending_tells_its_status(step: SendStep, node: Node, status: Status)
    ensures
        is_step(step, SendStepView::Done(Some(status))) ==> step == SendStep::Done(
            Err::<(), TokadError>(TokadError::NetworkStatus(status)),
        ),
        is_step(step, SendStepView::Done(None)) ==> step is Done && step->Done_0 is Ok,
        failure_of(Err(status)) == Some(status),
        failure_of(Ok(Stub { id: node.id, port: node.port })) is None,
{
}

/// A step that sends names the message that it sends and the node that it goes to, unchanged.
pub proof fn a_step_sends_what_is_next(
    step: SendStep,
    left: Seq<(Node, proto::StoreRequest)>,
    failure: Option<Status>,
)
    ensures
        left.len() > 0 && is_step(step, next_send(left).0) ==> step == SendStep::Send(
            left[0].0,
            left[0].1,
        ),
        left.len() > 0 ==> next_send(left).1 == left.skip(1),
        left.len() == 0 ==> next_send(left).1 == left,
        failure is Some ==> after_send(left, failure).1.len() == 0,
        failure is None ==> after_send(left, failure) == next_send(left),
{
    if left.len() > 0 {
        assert(next_send(left).1 =~= left.skip(1));
    }
}

} // verus!
