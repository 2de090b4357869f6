//! The lines that the console keeps: the latest ones, up to a fixed number.

use circular_queue::CircularQueue;
use vstd::prelude::*;

use crate::text::views;

verus! {

/// The bounded queue of the `circular-queue` crate.
#[verifier::external_type_specification]
#[verifier::external_body]
#[verifier::reject_recursive_types(T)]
pub struct ExCircularQueue<T>(CircularQueue<T>);

/// The lines that a queue holds, the oldest first.
pub uninterp spec fn lines_of(queue: CircularQueue<String>) -> Seq<Seq<char>>;

/// How many lines a queue has room for.
pub uninterp spec fn room_of(queue: CircularQueue<String>) -> nat;

/// A list of lines after one more has come: the oldest leaves where there is no room.
pub open spec fn noted(lines: Seq<Seq<char>>, room: nat, line: Seq<char>) -> Seq<Seq<char>> {
    if room == 0 {
        lines
    } else if lines.len() == room {
        lines.drop_first().push(line)
    } else {
        lines.push(line)
    }
}

/// A list of lines after several more have come, one after the other.
pub open spec fn all_noted(
    lines: Seq<Seq<char>>,
    room: nat,
    more: Seq<Seq<char>>,
) -> Seq<Seq<char>>
    decreases more.len(),
{
    if more.len() == 0 {
        lines
    } else {
        noted(all_noted(lines, room, more.drop_last()), room, more.last())
    }
}

/// Whether a vector can have room for so many lines: a `String` is three words, and a vector holds
/// no more bytes than the largest `isize`.
pub open spec fn room_exists(room: usize) -> bool {
    room * 3 * (usize::BITS as int / 8) <= isize::MAX
}

/// Calls `CircularQueue::with_capacity`. Trusted: the queue is empty and has the room asked for.
/// It allocates a vector of that capacity, and a capacity beyond what a vector can have, on which
/// it panics, is left out.
#[verifier::external_body]
fn new_queue(room: usize) -> (queue: CircularQueue<String>)
    requires
        room_exists(room),
    ensures
        lines_of(queue) == Seq::<Seq<char>>::empty(),
        room_of(queue) == room,
{
    CircularQueue::with_capacity(room)
}

/// Calls `CircularQueue::push`. Trusted: the line comes behind the others; in a full queue the
/// oldest line leaves, and a queue without room stays as it is.
#[verifier::external_body]
fn push_line(queue: &mut CircularQueue<String>, line: String)
    ensures
        lines_of(*final(queue)) == noted(lines_of(*old(queue)), room_of(*old(queue)), line@),
        room_of(*final(queue)) == room_of(*old(queue)),
{
    queue.push(line);
}

/// Calls `CircularQueue::clear`. Trusted: no line is left, and the room stays.
#[verifier::external_body]
fn clear_lines(queue: &mut CircularQueue<String>)
    ensures
        lines_of(*final(queue)) == Seq::<Seq<char>>::empty(),
        room_of(*final(queue)) == room_of(*old(queue)),
{
    queue.clear();
}

/// Collects what `CircularQueue::iter` gives. Trusted: these are the lines of the queue, the
/// newest first.
#[verifier::external_body]
fn newest_lines(queue: &CircularQueue<String>) -> (lines: Vec<String>)
    ensures
        views(lines@) == lines_of(*queue).reverse(),
{
    queue.iter().cloned().collect()
}

/// The lines of a console.
#[derive(Debug)]
pub struct History {
    pub queue: CircularQueue<String>,
}

/// The view of a `History`.
pub struct HistoryView {
    /// The lines, the oldest first.
    pub lines: Seq<Seq<char>>,
    pub room: nat,
}

impl View for History {
    type V = HistoryView;

    open spec fn view(&self) -> HistoryView {
        HistoryView { lines: lines_of(self.queue), room: room_of(self.queue) }
    }
}

impl HistoryView {
    /// Whether there are no more lines than there is room for.
    pub open spec fn wf(self) -> bool {
        self.lines.len() <= self.room
    }

    /// The history after several more lines.
    pub open spec fn and(self, more: Seq<Seq<char>>) -> HistoryView {
        HistoryView { lines: all_noted(self.lines, self.room, more), ..self }
    }
}

impl History {
    /// A history without lines.
    pub fn new(room: usize) -> (history: History)
        requires
            room_exists(room),
        ensures
            history@.lines == Seq::<Seq<char>>::empty(),
            history@.room == room,
            history@.wf(),
    {
        History { queue: new_queue(room) }
    }

    /// Adds a line.
    pub fn push(&mut self, line: String)
        ensures
            final(self)@ == old(self)@.and(seq![line@]),
            old(self)@.wf() ==> final(self)@.wf(),
    {
        push_line(&mut self.queue, line);
        proof {
            let one = seq![line@];
            let before = old(self)@;
            assert(one.drop_last() =~= Seq::<Seq<char>>::empty());
            assert(all_noted(before.lines, before.room, one.drop_last()) == before.lines);
        }
    }

    /// Adds lines, one after the other.
    pub fn extend(&mut self, lines: Vec<String>)
        ensures
            final(self)@ == old(self)@.and(views(lines@)),
            old(self)@.wf() ==> final(self)@.wf(),
    {
        let ghost start = self@;
        let mut i: usize = 0;
        assert(views(lines@).take(0) =~= Seq::<Seq<char>>::empty());
        while i < lines.len()
            invariant
                i <= lines@.len(),
                self@ == start.and(views(lines@).take(i as int)),
                start.wf() ==> self@.wf(),
            decreases lines@.len() - i,
        {
            let ghost more = views(lines@).take(i + 1);
            assert(more.drop_last() =~= views(lines@).take(i as int));
            push_line(&mut self.queue, lines[i].clone());
            i = i + 1;
        }
        assert(views(lines@).take(lines@.len() as int) =~= views(lines@));
    }

    /// Removes all lines.
    pub fn clear(&mut self)
        ensures
            final(self)@.lines == Seq::<Seq<char>>::empty(),
            final(self)@.room == old(self)@.room,
            final(self)@.wf(),
    {
        clear_lines(&mut self.queue);
    }

    /// The lines, the newest first.
    pub fn newest(&self) -> (lines: Vec<String>)
        ensures
            views(lines@) == self@.lines.reverse(),
    {
        newest_lines(&self.queue)
    }
}

/// The end of a list, at most `count` items long.
pub open spec fn last_of(list: Seq<Seq<char>>, count: nat) -> Seq<Seq<char>> {
    if list.len() > count {
        list.skip(list.len() - count)
    } else {
        list
    }
}

/// A console keeps the latest lines: after any number of lines it holds the last ones of all that
/// came, as many as it has room for.
pub proof fn latest_lines_are_kept(lines: Seq<Seq<char>>, room: nat, more: Seq<Seq<char>>)
    requires
        lines.len() <= room,
    ensures
        all_noted(lines, room, more) == last_of(lines + more, room),
    decreases more.len(),
{
    if more.len() == 0 {
        assert(lines + more =~= lines);
    } else {
        let front = more.drop_last();
        latest_lines_are_kept(lines, room, front);
        let all = lines + more;
        let before = lines + front;
        assert(all =~= before.push(more.last()));
        if room == 0 {
            assert(last_of(before, room) =~= last_of(all, room));
        } else {
            assert(all_noted(lines, room, more) =~= last_of(all, room));
        }
    }
}

/// The end of a list is its last items in their order, as many as asked for, or all there are.
pub proof fn the_end_of_a_list_is_its_last_items(list: Seq<Seq<char>>, count: nat)
    ensures
        last_of(list, count).len() == if list.len() < count {
            list.len()
        } else {
            count
        },
        forall|i: int|
            0 <= i < last_of(list, count).len() ==> #[trigger] last_of(list, count)[i]
                == list[list.len() - last_of(list, count).len() + i],
{
}

/// One more line comes behind the others; in a full console the oldest leaves, and where there is
/// no room nothing comes. Several lines come one after the other.
pub proof fn a_line_comes_behind_the_others(
    lines: Seq<Seq<char>>,
    room: nat,
    line: Seq<char>,
    more: Seq<Seq<char>>,
)
    requires
        lines.len() <= room,
    ensures
        room > 0 ==> noted(lines, room, line).last() == line,
        lines.len() < room ==> noted(lines, room, line) == lines + seq![line],
        lines.len() == room && room > 0 ==> noted(lines, room, line) == lines.skip(1) + seq![line],
        room == 0 ==> noted(lines, room, line) == lines,
        all_noted(lines, room, Seq::empty()) == lines,
        all_noted(lines, room, more.push(line)) == noted(all_noted(lines, room, more), room, line),
{
    assert(more.push(line).drop_last() =~= more);
    if room > 0 && lines.len() == room {
        assert(noted(lines, room, line) =~= lines.skip(1) + seq![line]);
    }
    if lines.len() < room {
        assert(noted(lines, room, line) =~= lines + seq![line]);
    }
}

} // verus!
