//! What holds of a whole search, whatever answers come and in whatever order.

use vstd::prelude::*;

use crate::data::{Node, Stub};
use crate::hash::ID_MASK;
use crate::lookup::{
    answer_keeps_lookup_sound, answered, answers_stand_once, asked_divides, begun, beyond,
    beyond_stays, concluded, continued, done_with, every_lookup_ends, ids, informed,
    lookup_gives_the_nearest, lookup_starts_sound, named_nodes_join_unchanged, next_asks, no_node_is_asked_twice,
    nobody_nearer_is_passed_over, own_node, reply_in_range, reply_keeps_lookup_sound, sound,
    work_is_never_negative, work_left, LookupView,
};
use crate::order::{closer, closer_divides, far, nearest_of, placed, the_nearest_are_chosen};
use crate::routing::distance_injective;
use crate::tokad::{all_nodes, ids_differ, table_distinct, table_ok, ALPHA, K};

verus! {

/// An answer in the course of a search: the node that was asked, and the nodes that it names, or
/// nothing where it failed.
pub struct Reply {
    pub node: Node,
    pub nodes: Option<Seq<Node>>,
}

/// A search with its open questions, and with all that were asked so far, the searching node
/// itself among them.
pub struct Course {
    pub search: LookupView,
    pub open: Seq<Node>,
    pub asked: Seq<u128>,
}

/// A list without the place where a node stands.
pub open spec fn without_node(nodes: Seq<Node>, node: Node) -> Seq<Node> {
    nodes.remove(nodes.index_of(node))
}

/// A search after one more answer.
pub open spec fn moved(course: Course, reply: Reply) -> Course {
    let told = answered(course.search, reply.node, reply.nodes);
    Course {
        search: continued(told),
        open: without_node(course.open, reply.node) + next_asks(told),
        asked: course.asked + ids(next_asks(told)),
    }
}

/// A search after a list of answers, one after the other.
pub open spec fn after(course: Course, replies: Seq<Reply>) -> Course
    decreases replies.len(),
{
    if replies.len() == 0 {
        course
    } else {
        moved(after(course, replies.drop_last()), replies.last())
    }
}

/// Whether answers can come in this order: each from a node that has been asked and has not
/// answered yet, and naming nodes with identifiers in range.
pub open spec fn possible(course: Course, replies: Seq<Reply>) -> bool
    decreases replies.len(),
{
    replies.len() > 0 ==> {
        &&& possible(course, replies.drop_last())
        &&& after(course, replies.drop_last()).open.contains(replies.last().node)
        &&& reply_in_range(replies.last().nodes)
    }
}

/// A search as the node `own` starts it.
pub open spec fn started(search: LookupView, asks: Seq<Node>, own: Stub) -> Course {
    Course { search, open: asks, asked: seq![own.id] + ids(asks) }
}

/// Whether an identifier is farther away than `K` that have answered.
pub open spec fn id_beyond(search: LookupView, id: u128) -> bool {
    search.finished.len() >= K && far(search.finished[K - 1], search.key) < id ^ search.key
}

/// Whether the open questions are counted and told apart, and their nodes have been asked.
pub open spec fn open_in_order(course: Course) -> bool {
    &&& course.open.len() == course.search.under_way
    &&& ids_differ(course.open)
    &&& forall|i: int|
        0 <= i < course.open.len() ==> course.asked.contains((#[trigger] course.open[i]).id)
}

/// Whether those that answered are told apart, have been asked, and are not asked still.
pub open spec fn answers_in_order(course: Course) -> bool {
    let finished = course.search.finished;
    &&& ids_differ(finished)
    &&& forall|i: int|
        0 <= i < finished.len() ==> course.asked.contains((#[trigger] finished[i]).id)
    &&& forall|i: int, j: int|
        0 <= i < course.open.len() && 0 <= j < finished.len() ==> (#[trigger] course.open[i]).id
            != (#[trigger] finished[j]).id
}

/// Whether whoever has been heard of has been asked, is in the queue, or is farther away than `K`
/// that have answered.
pub open spec fn heard_in_order(course: Course) -> bool {
    forall|id: u128| #[trigger]
        course.search.seen.contains(id) ==> course.asked.contains(id) || ids(
            course.search.queue,
        ).contains(id) || id_beyond(course.search, id)
}

/// Whether a search is in order at any time: it is sound, whoever was asked is done with, its open
/// questions, its answers and those heard of are in order, and where no question is open, whoever
/// is in the queue is farther away than `K` that have answered.
pub open spec fn steady(course: Course) -> bool {
    let search = course.search;
    &&& sound(search)
    &&& done_with(search, course.asked)
    &&& open_in_order(course)
    &&& answers_in_order(course)
    &&& heard_in_order(course)
    &&& search.under_way == 0 ==> forall|i: int|
        0 <= i < search.queue.len() ==> beyond(search, #[trigger] search.queue[i])
}

proof fn lemma_informed_tracks(search: LookupView, nodes: Seq<Node>)
    ensures
        ({
            let told = informed(search, nodes);
            &&& told.key == search.key
            &&& told.finished == search.finished
            &&& told.under_way == search.under_way
            &&& forall|i: int|
                0 <= i < search.queue.len() ==> told.queue.contains(#[trigger] search.queue[i])
            &&& forall|id: u128| #[trigger]
                told.seen.contains(id) ==> search.seen.contains(id) || ids(told.queue).contains(id)
        }),
    decreases nodes.len(),
{
    if nodes.len() > 0 {
        lemma_informed_tracks(search, nodes.drop_last());
        let before = informed(search, nodes.drop_last());
        let told = informed(search, nodes);
        let node = nodes.last();
        if !before.seen.contains(node.id) {
            let at = closer(before.queue, far(node, before.key), before.key) as int;
            closer_divides(before.queue, far(node, before.key), before.key);
            assert(told.queue[at] == node);
            assert forall|i: int| 0 <= i < before.queue.len() implies told.queue.contains(
                #[trigger] before.queue[i],
            ) by {
                let j = if i < at { i } else { i + 1 };
                assert(told.queue[j] == before.queue[i]);
            }
            assert forall|i: int| 0 <= i < search.queue.len() implies told.queue.contains(
                #[trigger] search.queue[i],
            ) by {
                let j = choose|j: int|
                    0 <= j < before.queue.len() && before.queue[j] == search.queue[i];
                assert(told.queue.contains(before.queue[j]));
            }
            assert forall|id: u128| #[trigger] told.seen.contains(id) implies search.seen.contains(
                id,
            ) || ids(told.queue).contains(id) by {
                if id == node.id {
                    assert(ids(told.queue)[at] == id);
                } else {
                    let k = choose|k: int| 0 <= k < told.seen.len() && told.seen[k] == id;
                    assert(before.seen[k] == id);
                    assert(before.seen.contains(id));
                    if !search.seen.contains(id) {
                        let j = choose|j: int|
                            0 <= j < ids(before.queue).len() && ids(before.queue)[j] == id;
                        assert(told.queue.contains(before.queue[j]));
                        let m = choose|m: int|
                            0 <= m < told.queue.len() && told.queue[m] == before.queue[j];
                        assert(ids(told.queue)[m] == id);
                    }
                }
            }
        }
    } else {
        assert forall|i: int| 0 <= i < search.queue.len() implies search.queue.contains(
            #[trigger] search.queue[i],
        ) by {}
    }
}

/// What an answer does to those that are to be asked and to those that are beyond.
proof fn lemma_answered_tracks(search: LookupView, reply: Reply)
    requires
        sound(search),
        search.under_way > 0,
        reply_in_range(reply.nodes),
    ensures
        ({
            let told = answered(search, reply.node, reply.nodes);
            &&& told.key == search.key
            &&& told.under_way == search.under_way
            &&& told.wf()
            &&& forall|i: int|
                0 <= i < search.queue.len() ==> told.queue.contains(#[trigger] search.queue[i])
            &&& forall|id: u128| #[trigger]
                told.seen.contains(id) ==> search.seen.contains(id) || ids(told.queue).contains(id)
        }),
{
    match reply.nodes {
        Some(nodes) => {
            lemma_informed_tracks(search, nodes);
        },
        None => {
            assert forall|i: int| 0 <= i < search.queue.len() implies search.queue.contains(
                #[trigger] search.queue[i],
            ) by {}
        },
    }
    answer_keeps_lookup_sound(search, reply.node, reply.nodes);
}

/// What an answer does to those that have been asked: the old ones stay, the new ones come, and no
/// new one is an old one.
proof fn lemma_asked_grows(course: Course, reply: Reply)
    requires
        done_with(moved(course, reply).search, moved(course, reply).asked),
    ensures
        ({
            let next = moved(course, reply);
            let asks = next_asks(answered(course.search, reply.node, reply.nodes));
            &&& forall|id: u128| #[trigger] course.asked.contains(id) ==> next.asked.contains(id)
            &&& forall|i: int|
                0 <= i < asks.len() ==> next.asked.contains((#[trigger] asks[i]).id)
                    && !course.asked.contains(asks[i].id)
            &&& ids_differ(asks)
        }),
{
    let next = moved(course, reply);
    let asks = next_asks(answered(course.search, reply.node, reply.nodes));
    let n = course.asked.len() as int;
    assert forall|id: u128| #[trigger] course.asked.contains(id) implies next.asked.contains(
        id,
    ) by {
        let k = choose|k: int| 0 <= k < course.asked.len() && course.asked[k] == id;
        assert(next.asked[k] == id);
    }
    assert forall|i: int| 0 <= i < asks.len() implies next.asked.contains((#[trigger] asks[i]).id)
        && !course.asked.contains(asks[i].id) by {
        assert(next.asked[n + i] == asks[i].id);
        if course.asked.contains(asks[i].id) {
            let k = choose|k: int| 0 <= k < course.asked.len() && course.asked[k] == asks[i].id;
            assert(next.asked[k] == next.asked[n + i]);
        }
    }
    assert forall|i: int, j: int| 0 <= i < j < asks.len() implies (#[trigger] asks[i]).id != (
    #[trigger] asks[j]).id by {
        assert(next.asked[n + i] == asks[i].id);
        assert(next.asked[n + j] == asks[j].id);
    }
}

/// The questions that stay open when a node answers: all but its own.
proof fn lemma_rest_stays_open(course: Course, node: Node)
    requires
        open_in_order(course),
        course.open.contains(node),
    ensures
        ({
            let rest = without_node(course.open, node);
            &&& rest.len() == course.open.len() - 1
            &&& ids_differ(rest)
            &&& forall|i: int|
                0 <= i < rest.len() ==> course.open.contains(#[trigger] rest[i]) && rest[i].id
                    != node.id && course.asked.contains(rest[i].id)
        }),
{
    let at = course.open.index_of(node);
    assert(0 <= at < course.open.len() && course.open[at] == node);
    let rest = without_node(course.open, node);
    assert forall|i: int| 0 <= i < rest.len() implies course.open.contains(#[trigger] rest[i])
        && rest[i].id != node.id && course.asked.contains(rest[i].id) by {
        let k = if i < at { i } else { i + 1 };
        assert(rest[i] == course.open[k]);
    }
    assert forall|i: int, j: int| 0 <= i < j < rest.len() implies (#[trigger] rest[i]).id != (
    #[trigger] rest[j]).id by {
        let a = if i < at { i } else { i + 1 };
        let b = if j < at { j } else { j + 1 };
        assert(rest[i] == course.open[a] && rest[j] == course.open[b]);
    }
}

proof fn lemma_open_stays_in_order(course: Course, reply: Reply)
    requires
        open_in_order(course),
        course.open.contains(reply.node),
        answered(course.search, reply.node, reply.nodes).under_way == course.search.under_way,
        done_with(moved(course, reply).search, moved(course, reply).asked),
    ensures
        open_in_order(moved(course, reply)),
{
    let asks = next_asks(answered(course.search, reply.node, reply.nodes));
    let next = moved(course, reply);
    let rest = without_node(course.open, reply.node);
    let m = rest.len() as int;
    lemma_asked_grows(course, reply);
    lemma_rest_stays_open(course, reply.node);
    assert forall|i: int| 0 <= i < next.open.len() implies next.asked.contains(
        (#[trigger] next.open[i]).id,
    ) by {
        if i < m {
            assert(next.open[i] == rest[i]);
        } else {
            assert(next.open[i] == asks[i - m]);
        }
    }
    assert forall|i: int, j: int| 0 <= i < j < next.open.len() implies (
    #[trigger] next.open[i]).id != (#[trigger] next.open[j]).id by {
        if j < m {
            assert(next.open[i] == rest[i] && next.open[j] == rest[j]);
        } else if i >= m {
            assert(next.open[i] == asks[i - m] && next.open[j] == asks[j - m]);
        } else {
            assert(next.open[i] == rest[i] && next.open[j] == asks[j - m]);
        }
    }
}

proof fn lemma_answers_stay_in_order(course: Course, reply: Reply)
    requires
        course.search.wf(),
        course.search.under_way > 0,
        open_in_order(course),
        answers_in_order(course),
        course.open.contains(reply.node),
        done_with(moved(course, reply).search, moved(course, reply).asked),
    ensures
        answers_in_order(moved(course, reply)),
{
    let search = course.search;
    let node = reply.node;
    let asks = next_asks(answered(search, node, reply.nodes));
    let next = moved(course, reply);
    let finished = next.search.finished;
    let rest = without_node(course.open, node);
    let m = rest.len() as int;
    let at = choose|at: int| 0 <= at < course.open.len() && course.open[at] == node;
    assert(!ids(search.finished).contains(node.id)) by {
        if ids(search.finished).contains(node.id) {
            let j = choose|j: int|
                0 <= j < ids(search.finished).len() && ids(search.finished)[j] == node.id;
            assert(course.open[at].id != search.finished[j].id);
        }
    }
    answers_stand_once(search, node, reply.nodes);
    lemma_asked_grows(course, reply);
    lemma_rest_stays_open(course, node);
    lemma_finished(search, reply);
    assert forall|j: int| 0 <= j < finished.len() implies course.asked.contains(
        (#[trigger] finished[j]).id,
    ) by {
        if finished[j] == node {
            assert(course.asked.contains(course.open[at].id));
        } else {
            assert(search.finished.contains(finished[j]));
        }
    }
    assert forall|i: int, j: int| 0 <= i < next.open.len() && 0 <= j < finished.len() implies (
    #[trigger] next.open[i]).id != (#[trigger] finished[j]).id by {
        if i >= m {
            assert(next.open[i] == asks[i - m]);
        } else {
            assert(next.open[i] == rest[i]);
            if finished[j] != node {
                assert(search.finished.contains(finished[j]));
                assert(course.open.contains(rest[i]));
            }
        }
    }
}

/// Every answer keeps a search in order.
pub proof fn reply_keeps_course_steady(course: Course, reply: Reply)
    requires
        steady(course),
        course.open.contains(reply.node),
        reply_in_range(reply.nodes),
    ensures
        steady(moved(course, reply)),
{
    let search = course.search;
    let told = answered(search, reply.node, reply.nodes);
    let next = moved(course, reply);
    reply_keeps_lookup_sound(search, reply.node, reply.nodes);
    no_node_is_asked_twice(search, course.asked, reply.node, reply.nodes);
    lemma_answered_tracks(search, reply);
    lemma_open_stays_in_order(course, reply);
    lemma_answers_stay_in_order(course, reply);
    assert forall|id: u128| #[trigger] next.search.seen.contains(id) implies next.asked.contains(id)
        || ids(next.search.queue).contains(id) || id_beyond(next.search, id) by {
        lemma_heard_is_settled(course, reply, id);
    }
    if next.search.under_way == 0 {
        asked_divides(told.queue, told.finished, told.key, (told.under_way - 1) as nat);
        assert forall|i: int| 0 <= i < next.search.queue.len() implies beyond(
            next.search,
            #[trigger] next.search.queue[i],
        ) by {
            let from = told.queue.len() - next.search.queue.len();
            assert(next.search.queue[i] == told.queue[from + i]);
            nobody_nearer_is_passed_over(told, from + i);
        }
    }
}

proof fn lemma_finished(search: LookupView, reply: Reply)
    ensures
        ({
            let next = continued(answered(search, reply.node, reply.nodes));
            forall|j: int|
                0 <= j < next.finished.len() ==> (#[trigger] next.finished[j] == reply.node
                    && reply.nodes is Some) || search.finished.contains(next.finished[j])
        }),
{
    let next = continued(answered(search, reply.node, reply.nodes));
    match reply.nodes {
        Some(nodes) => {
            lemma_informed_tracks(search, nodes);
            let at = closer(search.finished, far(reply.node, search.key), search.key) as int;
            closer_divides(search.finished, far(reply.node, search.key), search.key);
            assert(next.finished == placed(search.finished, reply.node, search.key));
            assert forall|j: int| 0 <= j < next.finished.len() implies (
            #[trigger] next.finished[j] == reply.node && reply.nodes is Some)
                || search.finished.contains(next.finished[j]) by {
                if j != at {
                    let k = if j < at { j } else { j - 1 };
                    assert(next.finished[j] == search.finished[k]);
                }
            }
        },
        None => {},
    }
}

proof fn lemma_heard_is_settled(course: Course, reply: Reply, id: u128)
    requires
        steady(course),
        course.search.under_way > 0,
        reply_in_range(reply.nodes),
        moved(course, reply).search.seen.contains(id),
    ensures
        ({
            let next = moved(course, reply);
            ||| next.asked.contains(id)
            ||| ids(next.search.queue).contains(id)
            ||| id_beyond(next.search, id)
        }),
{
    let search = course.search;
    let told = answered(search, reply.node, reply.nodes);
    let asks = next_asks(told);
    let next = moved(course, reply);
    lemma_answered_tracks(search, reply);
    asked_divides(told.queue, told.finished, told.key, (told.under_way - 1) as nat);
    if search.seen.contains(id) && course.asked.contains(id) {
        let k = choose|k: int| 0 <= k < course.asked.len() && course.asked[k] == id;
        assert(next.asked[k] == id);
    } else if search.seen.contains(id) && id_beyond(search, id) {
        let node = Node { id, ip: arbitrary(), port: 0 };
        beyond_stays(search, node, reply.node, reply.nodes);
    } else {
        assert(ids(told.queue).contains(id)) by {
            if search.seen.contains(id) {
                let j = choose|j: int|
                    0 <= j < ids(search.queue).len() && ids(search.queue)[j] == id;
                assert(told.queue.contains(search.queue[j]));
                let m = choose|m: int|
                    0 <= m < told.queue.len() && told.queue[m] == search.queue[j];
                assert(ids(told.queue)[m] == id);
            }
        }
        let i = choose|i: int| 0 <= i < ids(told.queue).len() && ids(told.queue)[i] == id;
        let node = told.queue[i];
        nobody_nearer_is_passed_over(told, i);
        if asks.contains(node) {
            let k = choose|k: int| 0 <= k < asks.len() && asks[k] == node;
            assert(next.asked[course.asked.len() + k] == id);
        } else if next.search.queue.contains(node) {
            let k = choose|k: int| 0 <= k < next.search.queue.len() && next.search.queue[k] == node;
            assert(ids(next.search.queue)[k] == id);
        }
    }
}

/// A search starts in order where no identifier stands twice in the table.
pub proof fn course_starts_steady(
    own: Stub,
    table: Seq<Seq<Node>>,
    known: Seq<Node>,
    key: u128,
    search: LookupView,
    asks: Seq<Node>,
)
    requires
        own.id <= ID_MASK,
        table_ok(own.id, table),
        table_distinct(table),
        nearest_of(known, all_nodes(table), key, K as nat),
        begun(search, asks, own, known, key),
    ensures
        steady(started(search, asks, own)),
{
    lookup_starts_sound(own, table, known, key, search, asks);
    let course = started(search, asks, own);
    let queue = asks + search.queue;
    assert(course.asked[0] == own.id);
    assert forall|i: int| 0 <= i < asks.len() implies course.asked.contains(
        (#[trigger] asks[i]).id,
    ) && asks[i].id != own.id by {
        assert(course.asked[i + 1] == asks[i].id);
        assert(course.asked[0] != course.asked[i + 1]);
    }
    assert forall|i: int, j: int| 0 <= i < j < asks.len() implies (#[trigger] asks[i]).id != (
    #[trigger] asks[j]).id by {
        assert(course.asked[i + 1] == asks[i].id);
        assert(course.asked[j + 1] == asks[j].id);
    }
    assert(search.finished[0]@.id == own.id);
    assert forall|id: u128| #[trigger] search.seen.contains(id) implies course.asked.contains(id)
        || ids(search.queue).contains(id) || id_beyond(search, id) by {
        let k = choose|k: int| 0 <= k < search.seen.len() && search.seen[k] == id;
        if k < asks.len() {
            assert(queue[k] == asks[k]);
            assert(course.asked[k + 1] == id);
        } else if k < queue.len() {
            assert(queue[k] == search.queue[k - asks.len()]);
            assert(ids(search.queue)[k - asks.len()] == id);
        }
    }
    queue.to_multiset_ensures();
    known.to_multiset_ensures();
}

/// A whole search, whatever answers come and in whatever order: never more than `ALPHA` questions
/// are open, nobody is asked twice, and every answer brings the end nearer. What is given at any
/// time is nearest first, without equals, no more than `K`, and only nodes that have been asked and
/// have answered, or the searching node itself under its own name; it is never empty, and whoever
/// answered and is left out is farther away than all `K` that are given. Whoever was known at the
/// start or named in an answer has been heard of. Once no question is open, whoever was heard of
/// has been asked or is farther away than all `K` that are given.
pub proof fn whole_lookup(
    own: Stub,
    table: Seq<Seq<Node>>,
    known: Seq<Node>,
    key: u128,
    search: LookupView,
    asks: Seq<Node>,
    replies: Seq<Reply>,
)
    requires
        own.id <= ID_MASK,
        table_ok(own.id, table),
        table_distinct(table),
        nearest_of(known, all_nodes(table), key, K as nat),
        begun(search, asks, own, known, key),
        possible(started(search, asks, own), replies),
    ensures
        ({
            let end = after(started(search, asks, own), replies);
            let given = concluded(end.search);
            &&& end.open.len() == end.search.under_way <= ALPHA
            &&& end.asked.no_duplicates()
            &&& 0 <= work_left(end.search) <= work_left(search) - replies.len()
            &&& given.len() <= K
            &&& forall|i: int, j: int|
                0 <= i < j < given.len() ==> far(#[trigger] given[i], key) < far(
                    #[trigger] given[j],
                    key,
                )
            &&& forall|i: int|
                0 <= i < given.len() ==> (#[trigger] given[i]).id == own.id || has_answered(
                    replies,
                    given[i],
                )
            &&& given.len() > 0
            &&& forall|i: int|
                0 <= i < given.len() && (#[trigger] given[i]).id == own.id ==> given[i]@ == own_node(
                    own,
                )
            &&& forall|node: Node| #[trigger]
                has_answered(replies, node) ==> given.contains(node) || (given.len() == K && far(
                    given[K - 1],
                    key,
                ) < far(node, key))
            &&& (exists|i: int| 0 <= i < given.len() && (#[trigger] given[i]).id == own.id) || (
            given.len() == K && far(given[K - 1], key) < own.id ^ key)
            &&& forall|i: int|
                0 <= i < known.len() ==> end.search.seen.contains((#[trigger] known[i]).id)
            &&& forall|id: u128| #[trigger] named(replies, id) ==> end.search.seen.contains(id)
            &&& end.search.under_way == 0 ==> forall|id: u128| #[trigger]
                end.search.seen.contains(id) ==> end.asked.contains(id) || (given.len() == K && far(
                    given[K - 1],
                    key,
                ) < id ^ key)
        }),
{
    course_starts_steady(own, table, known, key, search, asks);
    let start = started(search, asks, own);
    lemma_course(start, own.id, key, replies);
    let end = after(start, replies);
    let given = concluded(end.search);
    lookup_gives_the_nearest(end.search);
    assert forall|i: int, j: int| 0 <= i < j < given.len() implies far(#[trigger] given[i], key)
        < far(#[trigger] given[j], key) by {
        assert(given[i] == end.search.finished[i]);
        assert(given[j] == end.search.finished[j]);
        distance_injective(given[i].id, given[j].id, key);
    }
    assert forall|i: int| 0 <= i < given.len() implies (#[trigger] given[i]).id == own.id
        || has_answered(replies, given[i]) by {
        assert(given[i] == end.search.finished[i]);
    }
    lemma_course_remembers(start, replies);
    let itself = search.finished[0];
    assert(search.finished.contains(itself));
    assert(end.search.finished.contains(itself));
    assert(itself@.id == own.id);
    assert forall|i: int| 0 <= i < given.len() && (#[trigger] given[i]).id == own.id implies given[i]@
        == own_node(own) by {
        let j = choose|j: int| 0 <= j < end.search.finished.len() && end.search.finished[j] == itself;
        assert(given[i] == end.search.finished[i]);
        assert(end.search.finished[i].id == end.search.finished[j].id);
    }
    assert forall|node: Node| #[trigger]
        has_answered(replies, node) implies given.contains(node) || (given.len() == K && far(
        given[K - 1],
        key,
    ) < far(node, key)) by {
        lemma_left_out_is_farther(end, node);
    }
    lemma_left_out_is_farther(end, itself);
    if given.contains(itself) {
        let i = choose|i: int| 0 <= i < given.len() && given[i] == itself;
        assert(given[i].id == own.id);
    }
    assert forall|i: int| 0 <= i < known.len() implies end.search.seen.contains(
        (#[trigger] known[i]).id,
    ) by {
        let queue = asks + search.queue;
        queue.to_multiset_ensures();
        known.to_multiset_ensures();
        assert(known.contains(known[i]));
        assert(queue.to_multiset().count(known[i]) > 0);
        assert(queue.contains(known[i]));
        let j = choose|j: int| 0 <= j < queue.len() && queue[j] == known[i];
        assert(search.seen[j] == known[i].id);
        assert(search.seen.contains(known[i].id));
    }
    if end.search.under_way == 0 {
        assert forall|id: u128| #[trigger] end.search.seen.contains(id) implies end.asked.contains(
            id,
        ) || (given.len() == K && far(given[K - 1], key) < id ^ key) by {
            if !end.asked.contains(id) {
                if ids(end.search.queue).contains(id) {
                    let i = choose|i: int|
                        0 <= i < ids(end.search.queue).len() && ids(end.search.queue)[i] == id;
                    assert(beyond(end.search, end.search.queue[i]));
                }
                assert(given[K - 1] == end.search.finished[K - 1]);
            }
        }
    }
}

/// Whether a node is among those that answered.
pub open spec fn has_answered(replies: Seq<Reply>, node: Node) -> bool {
    exists|r: int|
        0 <= r < replies.len() && (#[trigger] replies[r]).node == node && replies[r].nodes is Some
}

/// Whether an answer names an identifier.
pub open spec fn named(replies: Seq<Reply>, id: u128) -> bool {
    exists|r: int|
        0 <= r < replies.len() && (#[trigger] replies[r]).nodes is Some && ids(
            replies[r].nodes->0,
        ).contains(id)
}

proof fn lemma_left_out_is_farther(end: Course, node: Node)
    requires
        steady(end),
        end.search.finished.contains(node),
    ensures
        concluded(end.search).contains(node) || (concluded(end.search).len() == K && far(
            concluded(end.search)[K - 1],
            end.search.key,
        ) < far(node, end.search.key)),
{
    let finished = end.search.finished;
    let given = concluded(end.search);
    let j = choose|j: int| 0 <= j < finished.len() && finished[j] == node;
    if j < given.len() {
        assert(given[j] == node);
    } else {
        assert(given[K - 1] == finished[K - 1]);
        assert(far(finished[K - 1], end.search.key) <= far(finished[j], end.search.key));
        assert(finished[K - 1].id != finished[j].id);
        distance_injective(finished[K - 1].id, finished[j].id, end.search.key);
    }
}

proof fn lemma_informed_remembers(search: LookupView, nodes: Seq<Node>)
    ensures
        forall|id: u128| #[trigger]
            search.seen.contains(id) ==> informed(search, nodes).seen.contains(id),
        forall|id: u128| #[trigger]
            ids(nodes).contains(id) ==> informed(search, nodes).seen.contains(id),
    decreases nodes.len(),
{
    if nodes.len() > 0 {
        let front = nodes.drop_last();
        let node = nodes.last();
        let before = informed(search, front);
        let told = informed(search, nodes);
        lemma_informed_remembers(search, front);
        assert forall|id: u128| #[trigger] before.seen.contains(id) implies told.seen.contains(
            id,
        ) by {
            let k = choose|k: int| 0 <= k < before.seen.len() && before.seen[k] == id;
            assert(told.seen[k] == id);
        }
        assert(told.seen.contains(node.id)) by {
            if !before.seen.contains(node.id) {
                assert(told.seen[before.seen.len() as int] == node.id);
            }
        }
        assert forall|id: u128| #[trigger] ids(nodes).contains(id) implies told.seen.contains(
            id,
        ) by {
            let k = choose|k: int| 0 <= k < ids(nodes).len() && ids(nodes)[k] == id;
            if k < front.len() {
                assert(ids(front)[k] == id);
                assert(ids(front).contains(id));
                assert(before.seen.contains(id));
            }
        }
        assert forall|id: u128| #[trigger] search.seen.contains(id) implies told.seen.contains(
            id,
        ) by {
            assert(before.seen.contains(id));
        }
    }
}

/// What is known after an answer: all that was known before it, and all that it tells.
proof fn lemma_answer_remembers(search: LookupView, reply: Reply)
    ensures
        ({
            let next = continued(answered(search, reply.node, reply.nodes));
            &&& forall|id: u128| #[trigger] search.seen.contains(id) ==> next.seen.contains(id)
            &&& forall|node: Node| #[trigger]
                search.finished.contains(node) ==> next.finished.contains(node)
            &&& reply.nodes matches Some(nodes) ==> next.finished.contains(reply.node) && forall|
                id: u128,
            | #[trigger]
                ids(nodes).contains(id) ==> next.seen.contains(id)
        }),
{
    match reply.nodes {
        Some(nodes) => {
            lemma_informed_tracks(search, nodes);
            lemma_informed_remembers(search, nodes);
            let next = continued(answered(search, reply.node, reply.nodes));
            let at = closer(search.finished, far(reply.node, search.key), search.key) as int;
            closer_divides(search.finished, far(reply.node, search.key), search.key);
            assert(next.finished == placed(search.finished, reply.node, search.key));
            assert(next.finished[at] == reply.node);
            assert forall|node: Node| #[trigger]
                search.finished.contains(node) implies next.finished.contains(node) by {
                let k = choose|k: int| 0 <= k < search.finished.len() && search.finished[k] == node;
                let j = if k < at { k } else { k + 1 };
                assert(next.finished[j] == node);
            }
        },
        None => {},
    }
}

proof fn lemma_course_remembers(start: Course, replies: Seq<Reply>)
    ensures
        ({
            let end = after(start, replies).search;
            &&& forall|id: u128| #[trigger] start.search.seen.contains(id) ==> end.seen.contains(id)
            &&& forall|node: Node| #[trigger]
                start.search.finished.contains(node) ==> end.finished.contains(node)
            &&& forall|node: Node| #[trigger]
                has_answered(replies, node) ==> end.finished.contains(node)
            &&& forall|id: u128| #[trigger] named(replies, id) ==> end.seen.contains(id)
        }),
    decreases replies.len(),
{
    if replies.len() > 0 {
        let front = replies.drop_last();
        let reply = replies.last();
        let course = after(start, front);
        let end = after(start, replies).search;
        lemma_course_remembers(start, front);
        lemma_answer_remembers(course.search, reply);
        assert forall|id: u128| #[trigger] start.search.seen.contains(id) implies end.seen.contains(
            id,
        ) by {
            assert(course.search.seen.contains(id));
        }
        assert forall|node: Node| #[trigger]
            start.search.finished.contains(node) implies end.finished.contains(node) by {
            assert(course.search.finished.contains(node));
        }
        assert forall|node: Node| #[trigger] has_answered(
            replies,
            node,
        ) implies end.finished.contains(node) by {
            let r = choose|r: int|
                0 <= r < replies.len() && (#[trigger] replies[r]).node == node
                    && replies[r].nodes is Some;
            if r < front.len() {
                assert(front[r] == replies[r]);
                assert(has_answered(front, node));
                assert(course.search.finished.contains(node));
            }
        }
        assert forall|id: u128| #[trigger] named(replies, id) implies end.seen.contains(id) by {
            let r = choose|r: int|
                0 <= r < replies.len() && (#[trigger] replies[r]).nodes is Some && ids(
                    replies[r].nodes->0,
                ).contains(id);
            if r < front.len() {
                assert(front[r] == replies[r]);
                assert(named(front, id));
                assert(course.search.seen.contains(id));
            }
        }
    }
}

proof fn lemma_course(start: Course, own: u128, key: u128, replies: Seq<Reply>)
    requires
        steady(start),
        start.search.key == key,
        start.search.finished.len() == 1,
        start.search.finished[0].id == own,
        possible(start, replies),
    ensures
        ({
            let end = after(start, replies);
            &&& steady(end)
            &&& end.search.key == key
            &&& 0 <= work_left(end.search) <= work_left(start.search) - replies.len()
            &&& forall|i: int|
                0 <= i < end.search.finished.len() ==> (#[trigger] end.search.finished[i]).id == own
                    || has_answered(replies, end.search.finished[i])
        }),
    decreases replies.len(),
{
    if replies.len() == 0 {
        work_is_never_negative(start.search);
    } else {
        let front = replies.drop_last();
        let reply = replies.last();
        lemma_course(start, own, key, front);
        let course = after(start, front);
        let end = after(start, replies);
        assert(course.open.len() > 0) by {
            let i = choose|i: int| 0 <= i < course.open.len() && course.open[i] == reply.node;
        }
        reply_keeps_course_steady(course, reply);
        every_lookup_ends(course.search, reply.node, reply.nodes);
        lemma_answered_tracks(course.search, reply);
        lemma_finished(course.search, reply);
        assert forall|i: int| 0 <= i < end.search.finished.len() implies (
        #[trigger] end.search.finished[i]).id == own || has_answered(
            replies,
            end.search.finished[i],
        ) by {
            let node = end.search.finished[i];
            if node == reply.node && reply.nodes is Some {
                assert(replies[replies.len() - 1].node == node);
            } else {
                let k = choose|k: int|
                    0 <= k < course.search.finished.len() && course.search.finished[k] == node;
                if course.search.finished[k].id != own {
                    let r = choose|r: int|
                        0 <= r < front.len() && (#[trigger] front[r]).node == node
                            && front[r].nodes is Some;
                    assert(replies[r] == front[r]);
                }
            }
        }
    }
}

/// Whether a node was known at the start or is named in an answer, as it is.
pub open spec fn told_of(known: Seq<Node>, replies: Seq<Reply>, node: Node) -> bool {
    known.contains(node) || exists|r: int|
        0 <= r < replies.len() && (#[trigger] replies[r]).nodes is Some
            && replies[r].nodes->0.contains(node)
}

proof fn lemma_told_of_grows(known: Seq<Node>, replies: Seq<Reply>, node: Node)
    requires
        replies.len() > 0,
        told_of(known, replies.drop_last(), node) || (replies.last().nodes is Some
            && replies.last().nodes->0.contains(node)),
    ensures
        told_of(known, replies, node),
{
    let front = replies.drop_last();
    if !known.contains(node) {
        if replies.last().nodes is Some && replies.last().nodes->0.contains(node) {
            assert(replies[replies.len() - 1].nodes is Some);
        } else {
            let r = choose|r: int|
                0 <= r < front.len() && (#[trigger] front[r]).nodes is Some
                    && front[r].nodes->0.contains(node);
            assert(replies[r] == front[r]);
        }
    }
}

/// A whole search speaks of nodes as it was told of them. Whoever is asked, waits in the queue or
/// has answered, but the searching node itself, was among the nearest nodes of the table or is
/// named in an answer, with the same identifier, address and port; so is whoever is given.
pub proof fn nodes_are_asked_as_they_were_named(
    own: Stub,
    known: Seq<Node>,
    key: u128,
    search: LookupView,
    asks: Seq<Node>,
    replies: Seq<Reply>,
)
    requires
        begun(search, asks, own, known, key),
        possible(started(search, asks, own), replies),
    ensures
        ({
            let end = after(started(search, asks, own), replies);
            let given = concluded(end.search);
            &&& forall|n: Node| #[trigger]
                end.open.contains(n) ==> told_of(known, replies, n)
            &&& forall|n: Node| #[trigger]
                end.search.queue.contains(n) ==> told_of(known, replies, n)
            &&& forall|n: Node| #[trigger]
                end.search.finished.contains(n) ==> n@ == own_node(own) || told_of(known, replies, n)
            &&& forall|i: int|
                0 <= i < given.len() ==> (#[trigger] given[i])@ == own_node(own) || told_of(
                    known,
                    replies,
                    given[i],
                )
        }),
    decreases replies.len(),
{
    let start = started(search, asks, own);
    let end = after(start, replies);
    if replies.len() == 0 {
        let queue = asks + search.queue;
        queue.to_multiset_ensures();
        known.to_multiset_ensures();
        assert forall|n: Node| #[trigger] queue.contains(n) implies known.contains(n) by {
            assert(queue.to_multiset().count(n) > 0);
            assert(known.to_multiset().count(n) > 0);
        }
        assert forall|n: Node| #[trigger] end.open.contains(n) implies told_of(known, replies, n) by {
            let k = choose|k: int| 0 <= k < asks.len() && asks[k] == n;
            assert(queue[k] == n);
            assert(queue.contains(n));
        }
        assert forall|n: Node| #[trigger] end.search.queue.contains(n) implies told_of(
            known,
            replies,
            n,
        ) by {
            let k = choose|k: int| 0 <= k < search.queue.len() && search.queue[k] == n;
            assert(queue[asks.len() + k] == n);
            assert(queue.contains(n));
        }
    } else {
        let front = replies.drop_last();
        let reply = replies.last();
        nodes_are_asked_as_they_were_named(own, known, key, search, asks, front);
        let course = after(start, front);
        let told = answered(course.search, reply.node, reply.nodes);
        let before = course.search;
        assert forall|n: Node| #[trigger] told.queue.contains(n) implies told_of(
            known,
            replies,
            n,
        ) by {
            if reply.nodes is Some {
                named_nodes_join_unchanged(before, reply.nodes->0);
                assert(informed(before, reply.nodes->0).queue.contains(n));
            }
            lemma_told_of_grows(known, replies, n);
        }
        asked_divides(told.queue, told.finished, told.key, (told.under_way - 1) as nat);
        let next = next_asks(told);
        assert forall|n: Node| #[trigger] end.search.queue.contains(n) implies told_of(
            known,
            replies,
            n,
        ) by {
            let k = choose|k: int| 0 <= k < end.search.queue.len() && end.search.queue[k] == n;
            assert(told.queue[told.queue.len() - end.search.queue.len() + k] == n);
            assert(told.queue.contains(n));
        }
        assert forall|n: Node| #[trigger] end.open.contains(n) implies told_of(
            known,
            replies,
            n,
        ) by {
            let rest = without_node(course.open, reply.node);
            let k = choose|k: int| 0 <= k < end.open.len() && end.open[k] == n;
            let at = course.open.index_of(reply.node);
            assert(0 <= at < course.open.len());
            if k < rest.len() {
                let j = if k < at { k } else { k + 1 };
                assert(course.open[j] == n);
                assert(course.open.contains(n));
                lemma_told_of_grows(known, replies, n);
            } else {
                assert(next[k - rest.len()] == n);
                assert(told.queue[k - rest.len()] == n);
                assert(told.queue.contains(n));
            }
        }
        lemma_finished(before, reply);
        assert forall|n: Node| #[trigger] end.search.finished.contains(n) implies n@ == own_node(own)
            || told_of(known, replies, n) by {
            let k = choose|k: int| 0 <= k < end.search.finished.len() && end.search.finished[k] == n;
            if n == reply.node {
                assert(course.open.contains(n));
                lemma_told_of_grows(known, replies, n);
            } else {
                assert(before.finished.contains(end.search.finished[k]));
                if n@ != own_node(own) {
                    lemma_told_of_grows(known, replies, n);
                }
            }
        }
    }
    let given = concluded(end.search);
    assert forall|i: int| 0 <= i < given.len() implies (#[trigger] given[i])@ == own_node(own)
        || told_of(known, replies, given[i]) by {
        assert(given[i] == end.search.finished[i]);
        assert(end.search.finished.contains(given[i]));
    }
}

/// What a whole search gives, in terms of the table that it starts from: nodes of the table or of
/// some answer, unchanged, and the searching node itself.
pub proof fn a_whole_lookup_gives_nodes_unchanged(
    own: Stub,
    table: Seq<Seq<Node>>,
    known: Seq<Node>,
    key: u128,
    search: LookupView,
    asks: Seq<Node>,
    replies: Seq<Reply>,
    i: int,
)
    requires
        nearest_of(known, all_nodes(table), key, K as nat),
        begun(search, asks, own, known, key),
        possible(started(search, asks, own), replies),
        0 <= i < concluded(after(started(search, asks, own), replies).search).len(),
    ensures
        ({
            let node = concluded(after(started(search, asks, own), replies).search)[i];
            ||| node.id == own.id && node.port == own.port && node.ip@ == "::1"@
            ||| all_nodes(table).contains(node)
            ||| exists|r: int|
                0 <= r < replies.len() && (#[trigger] replies[r]).nodes is Some
                    && replies[r].nodes->0.contains(node)
        }),
{
    nodes_are_asked_as_they_were_named(own, known, key, search, asks, replies);
    the_nearest_are_chosen(known, all_nodes(table), key, K as nat);
    let node = concluded(after(started(search, asks, own), replies).search)[i];
    if known.contains(node) {
        let k = choose|k: int| 0 <= k < known.len() && known[k] == node;
        assert(all_nodes(table).contains(known[k]));
    }
    if node@ == own_node(own) {
        assert(node.id == own.id && node.port == own.port && node.ip@ == "::1"@);
    }
}

} // verus!
