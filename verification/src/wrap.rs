//! Breaking text into lines of a given width.

use vstd::prelude::*;
use vstd::utf8::encode_utf8;

use crate::text::{byte_len, chars_of, str_bytes, views, views_push};

verus! {

/// The position of the first `c` in `s`, or the length of `s` where there is none.
pub open spec fn first_of(s: Seq<char>, c: char) -> nat
    decreases s.len(),
{
    if s.len() == 0 || s[0] == c {
        0
    } else {
        1 + first_of(s.drop_first(), c)
    }
}

/// What `first_of` finds.
pub proof fn first_of_bound(s: Seq<char>, c: char)
    ensures
        first_of(s, c) <= s.len(),
        first_of(s, c) < s.len() ==> s[first_of(s, c) as int] == c,
        forall|i: int| 0 <= i < first_of(s, c) ==> s[i] != c,
    decreases s.len(),
{
    if s.len() > 0 && s[0] != c {
        first_of_bound(s.drop_first(), c);
        assert forall|i: int| 0 <= i < first_of(s, c) implies s[i] != c by {
            if i > 0 {
                assert(s[i] == s.drop_first()[i - 1]);
            }
        }
    }
}

/// A line without the carriage return that stood before its line feed.
pub open spec fn without_return(line: Seq<char>) -> Seq<char> {
    if line.len() > 0 && line.last() == '\r' {
        line.drop_last()
    } else {
        line
    }
}

/// The lines of a text. A line ends at a line feed or at a carriage return followed by a line
/// feed, and the ending of the last line may be missing.
pub open spec fn text_lines(s: Seq<char>) -> Seq<Seq<char>>
    decreases s.len(),
{
    if s.len() == 0 {
        Seq::empty()
    } else {
        let n = first_of(s, '\n') as int;
        if n < s.len() {
            seq![without_return(s.take(n))] + text_lines(s.skip(n + 1))
        } else {
            seq![s]
        }
    }
}

/// The pieces of a line between its spaces, empty ones among them.
pub open spec fn pieces(s: Seq<char>) -> Seq<Seq<char>>
    decreases s.len(),
{
    let n = first_of(s, ' ') as int;
    if n < s.len() {
        seq![s.take(n)] + pieces(s.skip(n + 1))
    } else {
        seq![s]
    }
}

/// The lines that come of adding the pieces `list`, one by one, to the line `current`: a piece
/// goes behind a space on the current line while it fits in `width` bytes, else on a new line.
pub open spec fn filled(list: Seq<Seq<char>>, width: nat, current: Seq<char>) -> Seq<Seq<char>>
    decreases list.len(),
{
    if list.len() == 0 {
        if current.len() == 0 {
            Seq::empty()
        } else {
            seq![current]
        }
    } else if current.len() == 0 {
        filled(list.drop_first(), width, list[0])
    } else if byte_len(current) + 1 + byte_len(list[0]) <= width {
        filled(list.drop_first(), width, current + seq![' '] + list[0])
    } else {
        seq![current] + filled(list.drop_first(), width, list[0])
    }
}

/// The lines that one line of text is broken into.
pub open spec fn wrapped_line(line: Seq<char>, width: nat) -> Seq<Seq<char>> {
    if line.len() == 0 {
        seq![line]
    } else {
        filled(pieces(line), width, Seq::empty())
    }
}

/// The lines that a list of lines is broken into.
pub open spec fn wrapped_lines(lines: Seq<Seq<char>>, width: nat) -> Seq<Seq<char>>
    decreases lines.len(),
{
    if lines.len() == 0 {
        Seq::empty()
    } else {
        wrapped_line(lines[0], width) + wrapped_lines(lines.drop_first(), width)
    }
}

/// The lines in which a text is shown on a screen of `width` columns.
pub open spec fn wrapped(text: Seq<char>, width: nat) -> Seq<Seq<char>> {
    if width == 0 {
        Seq::empty()
    } else if byte_len(text) <= width && !text.contains('\n') {
        seq![text]
    } else {
        wrapped_lines(text_lines(text), width)
    }
}

/// Whether a line keeps to the width, or cannot be broken because it holds no space.
pub open spec fn fits(line: Seq<char>, width: nat) -> bool {
    byte_len(line) <= width || !line.contains(' ')
}

/// Whether each of the lines keeps to the width or cannot be broken.
pub open spec fn all_fit(lines: Seq<Seq<char>>, width: nat) -> bool {
    forall|i: int| 0 <= i < lines.len() ==> fits(#[trigger] lines[i], width)
}

proof fn lemma_all_fit_concat(a: Seq<Seq<char>>, b: Seq<Seq<char>>, width: nat)
    requires
        all_fit(a, width),
        all_fit(b, width),
    ensures
        all_fit(a + b, width),
{
    assert forall|i: int| 0 <= i < (a + b).len() implies fits(#[trigger] (a + b)[i], width) by {
        if i < a.len() {
            assert((a + b)[i] == a[i]);
        } else {
            assert((a + b)[i] == b[i - a.len()]);
        }
    }
}

proof fn lemma_encode_concat(a: Seq<char>, b: Seq<char>)
    ensures
        encode_utf8(a + b) == encode_utf8(a) + encode_utf8(b),
    decreases a.len(),
{
    if a.len() == 0 {
        assert(a + b =~= b);
        assert(encode_utf8(a) + encode_utf8(b) =~= encode_utf8(b));
    } else {
        lemma_encode_concat(a.drop_first(), b);
        assert((a + b).drop_first() =~= a.drop_first() + b);
        assert(encode_utf8(a + b) =~= encode_utf8(a) + encode_utf8(b));
    }
}

/// A text followed by a space and another text takes the bytes of both and one more.
pub proof fn joined_byte_len(a: Seq<char>, b: Seq<char>)
    ensures
        byte_len(a + seq![' '] + b) == byte_len(a) + 1 + byte_len(b),
{
    lemma_encode_concat(a + seq![' '], b);
    lemma_encode_concat(a, seq![' ']);
    let space = seq![' '];
    assert(vstd::utf8::is_ascii_chars(space));
    vstd::utf8::is_ascii_chars_encode_utf8(space);
}

proof fn lemma_pieces_hold_no_space(s: Seq<char>)
    ensures
        forall|i: int| 0 <= i < pieces(s).len() ==> !(#[trigger] pieces(s)[i]).contains(' '),
    decreases s.len(),
{
    first_of_bound(s, ' ');
    let n = first_of(s, ' ') as int;
    if n < s.len() {
        lemma_pieces_hold_no_space(s.skip(n + 1));
        assert forall|i: int| 0 <= i < pieces(s).len() implies !(#[trigger] pieces(s)[i]).contains(
            ' ',
        ) by {
            if i > 0 {
                assert(pieces(s)[i] == pieces(s.skip(n + 1))[i - 1]);
            }
        }
    }
}

proof fn lemma_filled_fits(list: Seq<Seq<char>>, width: nat, current: Seq<char>)
    requires
        forall|i: int| 0 <= i < list.len() ==> !(#[trigger] list[i]).contains(' '),
        fits(current, width),
    ensures
        all_fit(filled(list, width, current), width),
    decreases list.len(),
{
    if list.len() > 0 {
        let rest = list.drop_first();
        assert(!list[0].contains(' '));
        assert forall|i: int| 0 <= i < rest.len() implies !(#[trigger] rest[i]).contains(' ') by {
            assert(rest[i] == list[i + 1]);
        }
        if current.len() == 0 {
            lemma_filled_fits(rest, width, list[0]);
        } else if byte_len(current) + 1 + byte_len(list[0]) <= width {
            joined_byte_len(current, list[0]);
            lemma_filled_fits(rest, width, current + seq![' '] + list[0]);
        } else {
            lemma_filled_fits(rest, width, list[0]);
            lemma_all_fit_concat(seq![current], filled(rest, width, list[0]), width);
        }
    }
}

proof fn lemma_wrapped_lines_fit(lines: Seq<Seq<char>>, width: nat)
    ensures
        all_fit(wrapped_lines(lines, width), width),
    decreases lines.len(),
{
    if lines.len() > 0 {
        lemma_wrapped_lines_fit(lines.drop_first(), width);
        if lines[0].len() > 0 {
            lemma_pieces_hold_no_space(lines[0]);
            lemma_filled_fits(pieces(lines[0]), width, Seq::empty());
        }
        lemma_all_fit_concat(
            wrapped_line(lines[0], width),
            wrapped_lines(lines.drop_first(), width),
            width,
        );
    }
}

/// Every line that a text is broken into keeps to the width, or is a single piece without a
/// space that is too long for any line.
pub proof fn wrapped_text_fits(text: Seq<char>, width: nat)
    ensures
        all_fit(wrapped(text, width), width),
{
    if width > 0 {
        lemma_wrapped_lines_fit(text_lines(text), width);
    }
}

/// The words of a line: its pieces that are not empty.
pub open spec fn line_words(line: Seq<char>) -> Seq<Seq<char>> {
    pieces(line).filter(|piece: Seq<char>| piece.len() > 0)
}

/// The words of a list of lines, in order.
pub open spec fn all_words(lines: Seq<Seq<char>>) -> Seq<Seq<char>>
    decreases lines.len(),
{
    if lines.len() == 0 {
        Seq::empty()
    } else {
        line_words(lines[0]) + all_words(lines.drop_first())
    }
}

proof fn lemma_first_of_is(s: Seq<char>, c: char, n: int)
    requires
        0 <= n < s.len(),
        s[n] == c,
        forall|i: int| 0 <= i < n ==> s[i] != c,
    ensures
        first_of(s, c) == n,
{
    first_of_bound(s, c);
}

proof fn lemma_pieces_concat(a: Seq<char>, b: Seq<char>)
    ensures
        pieces(a + seq![' '] + b) == pieces(a) + pieces(b),
    decreases a.len(),
{
    let whole = a + seq![' '] + b;
    let n = first_of(a, ' ') as int;
    first_of_bound(a, ' ');
    assert(whole[n] == ' ');
    assert forall|i: int| 0 <= i < n implies whole[i] != ' ' by {
        assert(whole[i] == a[i]);
    }
    lemma_first_of_is(whole, ' ', n);
    assert(whole.take(n) =~= a.take(n));
    if n < a.len() {
        lemma_pieces_concat(a.skip(n + 1), b);
        assert(whole.skip(n + 1) =~= a.skip(n + 1) + seq![' '] + b);
        assert(pieces(whole) =~= pieces(a) + pieces(b));
    } else {
        assert(a.take(n) =~= a);
        assert(whole.skip(n + 1) =~= b);
        assert(pieces(whole) =~= pieces(a) + pieces(b));
    }
}

proof fn lemma_all_words_concat(a: Seq<Seq<char>>, b: Seq<Seq<char>>)
    ensures
        all_words(a + b) == all_words(a) + all_words(b),
    decreases a.len(),
{
    if a.len() == 0 {
        assert(a + b =~= b);
        assert(all_words(a) + all_words(b) =~= all_words(b));
    } else {
        lemma_all_words_concat(a.drop_first(), b);
        assert((a + b).drop_first() =~= a.drop_first() + b);
        assert(all_words(a + b) =~= all_words(a) + all_words(b));
    }
}

proof fn lemma_words_of_one(line: Seq<char>)
    ensures
        all_words(seq![line]) == line_words(line),
{
    reveal_with_fuel(all_words, 2);
    assert(seq![line].drop_first() =~= Seq::<Seq<char>>::empty());
    assert(all_words(seq![line]) =~= line_words(line));
}

proof fn lemma_empty_line_has_no_words()
    ensures
        line_words(Seq::<char>::empty()) == Seq::<Seq<char>>::empty(),
{
    let line = Seq::<char>::empty();
    assert(pieces(line) =~= seq![line]);
    reveal_with_fuel(Seq::filter, 2);
    assert(seq![line].drop_last() =~= Seq::<Seq<char>>::empty());
    assert(line_words(line) =~= Seq::<Seq<char>>::empty());
}

proof fn lemma_filled_keeps_words(list: Seq<Seq<char>>, width: nat, current: Seq<char>)
    requires
        forall|i: int| 0 <= i < list.len() ==> !(#[trigger] list[i]).contains(' '),
    ensures
        all_words(filled(list, width, current)) == line_words(current) + list.filter(
            |piece: Seq<char>| piece.len() > 0,
        ),
    decreases list.len(),
{
    let full = |piece: Seq<char>| piece.len() > 0;
    if list.len() == 0 {
        reveal(Seq::filter);
        assert(list.filter(full) =~= Seq::<Seq<char>>::empty());
        assert(line_words(current) + list.filter(full) =~= line_words(current));
        if current.len() == 0 {
            assert(current =~= Seq::<char>::empty());
            lemma_empty_line_has_no_words();
        } else {
            lemma_words_of_one(current);
        }
    } else {
        let piece = list[0];
        let rest = list.drop_first();
        assert(!piece.contains(' '));
        assert forall|i: int| 0 <= i < rest.len() implies !(#[trigger] rest[i]).contains(' ') by {
            assert(rest[i] == list[i + 1]);
        }
        first_of_bound(piece, ' ');
        assert(pieces(piece) =~= seq![piece]);
        assert(list =~= seq![piece] + rest);
        Seq::filter_distributes_over_add(seq![piece], rest, full);
        assert(list.filter(full) == line_words(piece) + rest.filter(full));
        if current.len() == 0 {
            assert(current =~= Seq::<char>::empty());
            lemma_empty_line_has_no_words();
            lemma_filled_keeps_words(rest, width, piece);
            assert(line_words(current) + list.filter(full) =~= list.filter(full));
        } else if byte_len(current) + 1 + byte_len(piece) <= width {
            let longer = current + seq![' '] + piece;
            lemma_pieces_concat(current, piece);
            Seq::filter_distributes_over_add(pieces(current), pieces(piece), full);
            lemma_filled_keeps_words(rest, width, longer);
            assert(line_words(longer) == line_words(current) + line_words(piece));
            assert(line_words(longer) + rest.filter(full) =~= line_words(current) + list.filter(
                full,
            ));
        } else {
            lemma_filled_keeps_words(rest, width, piece);
            lemma_all_words_concat(seq![current], filled(rest, width, piece));
            lemma_words_of_one(current);
        }
    }
}

proof fn lemma_wrapped_lines_keep_words(lines: Seq<Seq<char>>, width: nat)
    ensures
        all_words(wrapped_lines(lines, width)) == all_words(lines),
    decreases lines.len(),
{
    if lines.len() > 0 {
        let line = lines[0];
        lemma_wrapped_lines_keep_words(lines.drop_first(), width);
        lemma_all_words_concat(
            wrapped_line(line, width),
            wrapped_lines(lines.drop_first(), width),
        );
        if line.len() == 0 {
            lemma_words_of_one(line);
        } else {
            lemma_pieces_hold_no_space(line);
            lemma_filled_keeps_words(pieces(line), width, Seq::empty());
            lemma_empty_line_has_no_words();
            assert(Seq::<Seq<char>>::empty() + line_words(line) =~= line_words(line));
        }
    }
}

/// No word of a text is lost, added or moved when it is broken into lines.
pub proof fn wrapped_text_keeps_its_words(text: Seq<char>, width: nat)
    requires
        width > 0,
    ensures
        all_words(wrapped(text, width)) == all_words(text_lines(text)),
{
    if byte_len(text) <= width && !text.contains('\n') {
        first_of_bound(text, '\n');
        lemma_words_of_one(text);
        if text.len() == 0 {
            assert(text =~= Seq::<char>::empty());
            lemma_empty_line_has_no_words();
        }
    } else {
        lemma_wrapped_lines_keep_words(text_lines(text), width);
    }
}

/// Whether no line holds a line feed.
pub open spec fn no_feeds(lines: Seq<Seq<char>>) -> bool {
    forall|i: int| 0 <= i < lines.len() ==> !(#[trigger] lines[i]).contains('\n')
}

proof fn lemma_no_feeds_concat(a: Seq<Seq<char>>, b: Seq<Seq<char>>)
    requires
        no_feeds(a),
        no_feeds(b),
    ensures
        no_feeds(a + b),
{
    assert forall|i: int| 0 <= i < (a + b).len() implies !(#[trigger] (a + b)[i]).contains(
        '\n',
    ) by {
        if i < a.len() {
            assert((a + b)[i] == a[i]);
        } else {
            assert((a + b)[i] == b[i - a.len()]);
        }
    }
}

proof fn lemma_text_lines_hold_no_feeds(s: Seq<char>)
    ensures
        no_feeds(text_lines(s)),
    decreases s.len(),
{
    if s.len() > 0 {
        first_of_bound(s, '\n');
        let n = first_of(s, '\n') as int;
        if n < s.len() {
            lemma_text_lines_hold_no_feeds(s.skip(n + 1));
            let line = without_return(s.take(n));
            assert forall|i: int| 0 <= i < line.len() implies line[i] != '\n' by {
                assert(line[i] == s[i]);
            }
            assert(no_feeds(seq![line]));
            lemma_no_feeds_concat(seq![line], text_lines(s.skip(n + 1)));
        }
    }
}

proof fn lemma_pieces_hold_no_feeds(s: Seq<char>)
    requires
        !s.contains('\n'),
    ensures
        no_feeds(pieces(s)),
    decreases s.len(),
{
    let n = first_of(s, ' ') as int;
    first_of_bound(s, ' ');
    if n < s.len() {
        let first = s.take(n);
        let rest = s.skip(n + 1);
        assert forall|i: int| 0 <= i < first.len() implies first[i] != '\n' by {
            assert(s.contains(s[i]));
        }
        assert forall|i: int| 0 <= i < rest.len() implies rest[i] != '\n' by {
            assert(rest[i] == s[n + 1 + i]);
            assert(s.contains(s[n + 1 + i]));
        }
        lemma_pieces_hold_no_feeds(rest);
        assert(no_feeds(seq![first]));
        lemma_no_feeds_concat(seq![first], pieces(rest));
    }
}

proof fn lemma_filled_holds_no_feeds(list: Seq<Seq<char>>, width: nat, current: Seq<char>)
    requires
        no_feeds(list),
        !current.contains('\n'),
    ensures
        no_feeds(filled(list, width, current)),
    decreases list.len(),
{
    if list.len() > 0 {
        let piece = list[0];
        let rest = list.drop_first();
        assert(!piece.contains('\n'));
        assert forall|i: int| 0 <= i < rest.len() implies !(#[trigger] rest[i]).contains(
            '\n',
        ) by {
            assert(rest[i] == list[i + 1]);
        }
        if current.len() == 0 {
            lemma_filled_holds_no_feeds(rest, width, piece);
        } else if byte_len(current) + 1 + byte_len(piece) <= width {
            let longer = current + seq![' '] + piece;
            assert forall|i: int| 0 <= i < longer.len() implies longer[i] != '\n' by {
                if i < current.len() {
                    assert(current.contains(current[i]));
                } else if i > current.len() {
                    assert(piece.contains(piece[i - current.len() - 1]));
                }
            }
            lemma_filled_holds_no_feeds(rest, width, longer);
        } else {
            lemma_filled_holds_no_feeds(rest, width, piece);
            assert(no_feeds(seq![current]));
            lemma_no_feeds_concat(seq![current], filled(rest, width, piece));
        }
    }
}

proof fn lemma_wrapped_lines_hold_no_feeds(lines: Seq<Seq<char>>, width: nat)
    requires
        no_feeds(lines),
    ensures
        no_feeds(wrapped_lines(lines, width)),
    decreases lines.len(),
{
    if lines.len() > 0 {
        let rest = lines.drop_first();
        assert forall|i: int| 0 <= i < rest.len() implies !(#[trigger] rest[i]).contains(
            '\n',
        ) by {
            assert(rest[i] == lines[i + 1]);
        }
        lemma_wrapped_lines_hold_no_feeds(rest, width);
        assert(!lines[0].contains('\n'));
        if lines[0].len() > 0 {
            lemma_pieces_hold_no_feeds(lines[0]);
            lemma_filled_holds_no_feeds(pieces(lines[0]), width, Seq::empty());
        }
        lemma_no_feeds_concat(wrapped_line(lines[0], width), wrapped_lines(rest, width));
    }
}

/// No line that a text is broken into holds a line feed.
pub proof fn wrapped_text_holds_no_line_feed(text: Seq<char>, width: nat)
    ensures
        no_feeds(wrapped(text, width)),
{
    if width > 0 {
        lemma_text_lines_hold_no_feeds(text);
        lemma_wrapped_lines_hold_no_feeds(text_lines(text), width);
    }
}

/// A line ends at its line feed, and a carriage return before it belongs to the ending. What stands
/// behind the last line feed is a line too, unless it is empty.
pub proof fn a_line_feed_ends_a_line(a: Seq<char>, b: Seq<char>)
    requires
        !a.contains('\n'),
    ensures
        a.len() > 0 && a.last() == '\r' ==> text_lines(a + seq!['\n'] + b) == seq![a.drop_last()]
            + text_lines(b),
        a.len() == 0 || a.last() != '\r' ==> text_lines(a + seq!['\n'] + b) == seq![a] + text_lines(
            b,
        ),
        a.len() > 0 ==> text_lines(a) == seq![a],
        text_lines(Seq::<char>::empty()) == Seq::<Seq<char>>::empty(),
{
    let whole = a + seq!['\n'] + b;
    let n = a.len() as int;
    assert(whole[n] == '\n');
    assert forall|i: int| 0 <= i < n implies whole[i] != '\n' by {
        assert(whole[i] == a[i]);
        assert(a.contains(a[i]));
    }
    lemma_first_of_is(whole, '\n', n);
    assert(whole.take(n) =~= a);
    assert(whole.skip(n + 1) =~= b);
    first_of_bound(a, '\n');
}

/// A space divides a line into the pieces before it and those behind it, and a line without spaces
/// is one piece.
pub proof fn a_space_divides_pieces(a: Seq<char>, b: Seq<char>)
    ensures
        pieces(a + seq![' '] + b) == pieces(a) + pieces(b),
        !a.contains(' ') ==> pieces(a) == seq![a],
{
    lemma_pieces_concat(a, b);
    first_of_bound(a, ' ');
}

/// Whether a line is broken no earlier than it must be: the first piece of the next line would not
/// have fitted on it behind a space.
pub open spec fn broken_late(lines: Seq<Seq<char>>, width: nat) -> bool {
    forall|i: int, j: int|
        0 <= i && j == i + 1 && j < lines.len() ==> byte_len(#[trigger] lines[i]) + 1 + byte_len(
            pieces(#[trigger] lines[j])[0],
        ) > width
}

proof fn lemma_filled_starts(list: Seq<Seq<char>>, width: nat, current: Seq<char>)
    requires
        current.len() > 0,
    ensures
        filled(list, width, current).len() > 0,
        pieces(filled(list, width, current)[0]).len() > 0,
        pieces(filled(list, width, current)[0])[0] == pieces(current)[0],
    decreases list.len(),
{
    if list.len() > 0 {
        let longer = current + seq![' '] + list[0];
        if byte_len(current) + 1 + byte_len(list[0]) <= width {
            lemma_filled_starts(list.drop_first(), width, longer);
            lemma_pieces_concat(current, list[0]);
        }
    }
}

proof fn lemma_filled_is_broken_late(list: Seq<Seq<char>>, width: nat, current: Seq<char>)
    requires
        forall|i: int| 0 <= i < list.len() ==> !(#[trigger] list[i]).contains(' '),
    ensures
        broken_late(filled(list, width, current), width),
    decreases list.len(),
{
    if list.len() > 0 {
        let piece = list[0];
        let rest = list.drop_first();
        assert forall|i: int| 0 <= i < rest.len() implies !(#[trigger] rest[i]).contains(' ') by {
            assert(rest[i] == list[i + 1]);
        }
        if current.len() == 0 {
            lemma_filled_is_broken_late(rest, width, piece);
        } else if byte_len(current) + 1 + byte_len(piece) <= width {
            lemma_filled_is_broken_late(rest, width, current + seq![' '] + piece);
        } else {
            lemma_filled_is_broken_late(rest, width, piece);
            let more = filled(rest, width, piece);
            let lines = seq![current] + more;
            if more.len() > 0 {
                if piece.len() > 0 {
                    lemma_filled_starts(rest, width, piece);
                    assert(!piece.contains(' '));
                    first_of_bound(piece, ' ');
                    assert(pieces(piece) =~= seq![piece]);
                } else {
                    assert(piece =~= Seq::<char>::empty());
                    assert(byte_len(piece) == 0);
                }
            }
            assert forall|i: int, j: int| 0 <= i && j == i + 1 && j < lines.len() implies byte_len(
                #[trigger] lines[i],
            ) + 1 + byte_len(pieces(#[trigger] lines[j])[0]) > width by {
                assert(lines[j] == more[j - 1]);
                if i > 0 {
                    assert(lines[i] == more[i - 1]);
                }
            }
        }
    }
}

/// How a text is broken. One that fits on a line and holds no line feed stays as it is. Else each
/// of its lines is broken by itself, an empty one stays, and no line is broken earlier than it must
/// be. A screen without columns shows nothing.
pub proof fn lines_are_broken_late(text: Seq<char>, line: Seq<char>, rest: Seq<Seq<char>>, width: nat)
    ensures
        wrapped(text, 0) == Seq::<Seq<char>>::empty(),
        width > 0 && byte_len(text) <= width && !text.contains('\n') ==> wrapped(text, width)
            == seq![text],
        width > 0 && (byte_len(text) > width || text.contains('\n')) ==> wrapped(text, width)
            == wrapped_lines(text_lines(text), width),
        wrapped_lines(Seq::<Seq<char>>::empty(), width) == Seq::<Seq<char>>::empty(),
        wrapped_lines(seq![line] + rest, width) == wrapped_line(line, width) + wrapped_lines(
            rest,
            width,
        ),
        line.len() == 0 ==> wrapped_line(line, width) == seq![line],
        broken_late(wrapped_line(line, width), width),
{
    assert((seq![line] + rest).drop_first() =~= rest);
    if line.len() > 0 {
        lemma_pieces_hold_no_space(line);
        lemma_filled_is_broken_late(pieces(line), width, Seq::empty());
    }
}

/// Pieces with a space between each two.
pub open spec fn rejoined(list: Seq<Seq<char>>) -> Seq<char>
    decreases list.len(),
{
    if list.len() == 0 {
        Seq::empty()
    } else if list.len() == 1 {
        list[0]
    } else {
        list[0] + seq![' '] + rejoined(list.drop_first())
    }
}

/// The pieces of a line, with spaces between them, are the line again, and pieces without spaces
/// come back from the line that they make.
pub proof fn pieces_make_the_line_again(line: Seq<char>, list: Seq<Seq<char>>)
    ensures
        rejoined(pieces(line)) == line,
        list.len() > 0 && (forall|i: int| 0 <= i < list.len() ==> !(#[trigger] list[i]).contains(' '))
            ==> pieces(rejoined(list)) == list,
{
    lemma_line_again(line);
    if list.len() > 0 && (forall|i: int|
        0 <= i < list.len() ==> !(#[trigger] list[i]).contains(' ')) {
        lemma_pieces_again(list);
    }
}

proof fn lemma_line_again(line: Seq<char>)
    ensures
        rejoined(pieces(line)) == line,
        pieces(line).len() > 0,
    decreases line.len(),
{
    let n = first_of(line, ' ') as int;
    first_of_bound(line, ' ');
    if n < line.len() {
        lemma_line_again(line.skip(n + 1));
        let rest = pieces(line.skip(n + 1));
        assert(pieces(line).drop_first() =~= rest);
        assert(line =~= line.take(n) + seq![' '] + line.skip(n + 1));
    }
}

proof fn lemma_pieces_again(list: Seq<Seq<char>>)
    requires
        list.len() > 0,
        forall|i: int| 0 <= i < list.len() ==> !(#[trigger] list[i]).contains(' '),
    ensures
        pieces(rejoined(list)) == list,
    decreases list.len(),
{
    assert(!list[0].contains(' '));
    if list.len() == 1 {
        a_space_divides_pieces(list[0], Seq::empty());
        assert(list =~= seq![list[0]]);
    } else {
        let rest = list.drop_first();
        assert forall|i: int| 0 <= i < rest.len() implies !(#[trigger] rest[i]).contains(' ') by {
            assert(rest[i] == list[i + 1]);
        }
        lemma_pieces_again(rest);
        a_space_divides_pieces(list[0], rejoined(rest));
        assert(list =~= seq![list[0]] + rest);
    }
}

/// What is left of a line to be broken.
pub open spec fn broken_rest(rest: Seq<char>, width: nat) -> Seq<Seq<char>> {
    if rest.len() == 0 {
        Seq::empty()
    } else {
        wrapped_line(rest, width)
    }
}

proof fn lemma_rest_is_broken(list: Seq<Seq<char>>, width: nat)
    requires
        list.len() > 0,
        forall|i: int| 0 <= i < list.len() ==> !(#[trigger] list[i]).contains(' '),
    ensures
        filled(list, width, Seq::empty()) == broken_rest(rejoined(list), width),
{
    lemma_pieces_again(list);
    let rest = rejoined(list);
    if rest.len() == 0 {
        assert(rest =~= Seq::<char>::empty());
        first_of_bound(rest, ' ');
        assert(list =~= seq![rest]);
        assert(list.drop_first() =~= Seq::<Seq<char>>::empty());
        assert(filled(list.drop_first(), width, rest) =~= Seq::<Seq<char>>::empty());
    }
}

proof fn lemma_filled_begins(list: Seq<Seq<char>>, width: nat, current: Seq<char>)
    requires
        current.len() > 0,
        forall|i: int| 0 <= i < list.len() ==> !(#[trigger] list[i]).contains(' '),
    ensures
        ({
            let line = if list.len() == 0 {
                current
            } else {
                current + seq![' '] + rejoined(list)
            };
            let lines = filled(list, width, current);
            let first = lines[0];
            &&& lines.len() > 0
            &&& first.len() <= line.len()
            &&& first == line.take(first.len() as int)
            &&& first.len() == line.len() ==> lines == seq![line]
            &&& first.len() < line.len() ==> line[first.len() as int] == ' ' && lines == seq![first]
                + broken_rest(line.skip(first.len() as int + 1), width)
        }),
    decreases list.len(),
{
    if list.len() == 0 {
        assert(current.take(current.len() as int) =~= current);
    } else {
        let rest = list.drop_first();
        assert forall|i: int| 0 <= i < rest.len() implies !(#[trigger] rest[i]).contains(' ') by {
            assert(rest[i] == list[i + 1]);
        }
        let line = current + seq![' '] + rejoined(list);
        if byte_len(current) + 1 + byte_len(list[0]) <= width {
            let longer = current + seq![' '] + list[0];
            lemma_filled_begins(rest, width, longer);
            if rest.len() == 0 {
                assert(line =~= longer);
            } else {
                assert(line =~= longer + seq![' '] + rejoined(rest));
            }
        } else {
            assert(line.take(current.len() as int) =~= current);
            assert(line.skip(current.len() as int + 1) =~= rejoined(list));
            lemma_rest_is_broken(list, width);
            assert(filled(list, width, Seq::empty()) == filled(rest, width, list[0]));
        }
    }
}

/// A line is broken from its beginning on. The first line shown is the beginning of it, up to its
/// end or to a space, and the rest behind that space is broken in the same way; spaces at the very
/// beginning are dropped first.
pub proof fn a_line_is_broken_from_its_beginning(line: Seq<char>, width: nat)
    requires
        line.len() > 0,
    ensures
        line[0] == ' ' ==> wrapped_line(line, width) == broken_rest(line.drop_first(), width),
        line[0] != ' ' ==> {
            let lines = wrapped_line(line, width);
            let first = lines[0];
            &&& lines.len() > 0
            &&& 0 < first.len() <= line.len()
            &&& first == line.take(first.len() as int)
            &&& first.len() == line.len() ==> lines == seq![line]
            &&& first.len() < line.len() ==> line[first.len() as int] == ' ' && lines == seq![first]
                + broken_rest(line.skip(first.len() as int + 1), width)
        },
{
    let list = pieces(line);
    let rest = list.drop_first();
    lemma_line_again(line);
    lemma_pieces_hold_no_space(line);
    assert forall|i: int| 0 <= i < rest.len() implies !(#[trigger] rest[i]).contains(' ') by {
        assert(rest[i] == list[i + 1]);
    }
    first_of_bound(line, ' ');
    if line[0] == ' ' {
        lemma_first_of_is(line, ' ', 0);
        assert(line.take(0) =~= Seq::<char>::empty());
        assert(line.skip(1) =~= line.drop_first());
        assert(rest =~= pieces(line.drop_first()));
        lemma_line_again(line.drop_first());
        lemma_rest_is_broken(rest, width);
    } else {
        let n = first_of(line, ' ') as int;
        assert(list[0] =~= line.take(n));
        assert(list[0].len() > 0);
        lemma_filled_begins(rest, width, list[0]);
        lemma_filled_first_is_full(rest, width, list[0]);
    }
}

proof fn lemma_filled_first_is_full(list: Seq<Seq<char>>, width: nat, current: Seq<char>)
    requires
        current.len() > 0,
    ensures
        filled(list, width, current).len() > 0,
        filled(list, width, current)[0].len() >= current.len(),
    decreases list.len(),
{
    if list.len() > 0 && byte_len(current) + 1 + byte_len(list[0]) <= width {
        lemma_filled_first_is_full(list.drop_first(), width, current + seq![' '] + list[0]);
    }
}

fn find(chars: &Vec<char>, start: usize, c: char) -> (end: usize)
    requires
        start <= chars@.len(),
    ensures
        end == start + first_of(chars@.skip(start as int), c),
        end <= chars@.len(),
{
    let mut i: usize = start;
    let ghost whole = first_of(chars@.skip(start as int), c);
    while i < chars.len() && chars[i] != c
        invariant
            start <= i <= chars@.len(),
            whole == (i - start) + first_of(chars@.skip(i as int), c),
        decreases chars@.len() - i,
    {
        assert(chars@.skip(i as int).drop_first() =~= chars@.skip(i + 1));
        i = i + 1;
    }
    i
}

/// The lines of a text.
pub fn split_lines(s: &str) -> (list: Vec<String>)
    ensures
        views(list@) == text_lines(s@),
{
    let chars: Vec<char> = chars_of(s);
    let mut list: Vec<String> = Vec::new();
    let mut i: usize = 0;
    assert(chars@.skip(0) =~= chars@);
    assert(views(list@) + text_lines(chars@) =~= text_lines(s@));
    while i < chars.len()
        invariant
            i <= chars@.len(),
            chars@ == s@,
            views(list@) + text_lines(chars@.skip(i as int)) == text_lines(s@),
        decreases chars@.len() - i,
    {
        let ghost rest = chars@.skip(i as int);
        let ghost before = list@;
        let end: usize = find(&chars, i, '\n');
        if end < chars.len() {
            let stop: usize = if end > i && chars[end - 1] == '\r' {
                end - 1
            } else {
                end
            };
            let line: String = s.substring_char(i, stop).to_owned();
            list.push(line);
            proof {
                let n = first_of(rest, '\n') as int;
                views_push(before, line);
                assert(rest.take(n) =~= s@.subrange(i as int, end as int));
                assert(line@ =~= without_return(rest.take(n)));
                assert(rest.skip(n + 1) =~= chars@.skip(end + 1));
                assert(views(list@) + text_lines(chars@.skip(end + 1)) =~= views(before)
                    + text_lines(rest));
            }
            i = end + 1;
        } else {
            let line: String = s.substring_char(i, end).to_owned();
            list.push(line);
            proof {
                views_push(before, line);
                assert(line@ =~= rest);
                assert(chars@.skip(end as int) =~= Seq::<char>::empty());
                assert(views(list@) + text_lines(chars@.skip(end as int)) =~= views(before)
                    + text_lines(rest));
            }
            i = end;
        }
    }
    assert(views(list@) =~= text_lines(s@));
    list
}

/// The pieces of a line between its spaces.
pub fn split_pieces(s: &str) -> (list: Vec<String>)
    ensures
        views(list@) == pieces(s@),
{
    let chars: Vec<char> = chars_of(s);
    let mut list: Vec<String> = Vec::new();
    let mut i: usize = 0;
    assert(chars@.skip(0) =~= chars@);
    assert(views(list@) + pieces(chars@) =~= pieces(s@));
    loop
        invariant
            i <= chars@.len(),
            chars@ == s@,
            views(list@) + pieces(chars@.skip(i as int)) == pieces(s@),
        decreases chars@.len() - i,
    {
        let ghost rest = chars@.skip(i as int);
        let ghost before = list@;
        let end: usize = find(&chars, i, ' ');
        let piece: String = s.substring_char(i, end).to_owned();
        list.push(piece);
        proof {
            let n = first_of(rest, ' ') as int;
            views_push(before, piece);
            assert(rest.take(n) =~= s@.subrange(i as int, end as int));
            if end < chars.len() {
                assert(rest.skip(n + 1) =~= chars@.skip(end + 1));
                assert(views(list@) + pieces(chars@.skip(end + 1)) =~= views(before) + pieces(
                    rest,
                ));
            } else {
                assert(rest =~= piece@);
                assert(views(list@) =~= views(before) + pieces(rest));
            }
        }
        if end >= chars.len() {
            return list;
        }
        i = end + 1;
    }
}

fn wrap_line(line: &str, width: usize, lines: &mut Vec<String>)
    ensures
        views(final(lines)@) == views(old(lines)@) + wrapped_line(line@, width as nat),
{
    let ghost start = lines@;
    if line.is_empty() {
        let empty: String = String::new();
        lines.push(empty);
        proof {
            views_push(start, empty);
            assert(empty@ =~= line@);
            assert(views(lines@) =~= views(start) + wrapped_line(line@, width as nat));
        }
        return ;
    }
    let list: Vec<String> = split_pieces(line);
    let ghost all = pieces(line@);
    let mut current: String = String::new();
    let mut i: usize = 0;
    assert(all.skip(0) =~= all);
    assert(current@ =~= Seq::<char>::empty());
    while i < list.len()
        invariant
            i <= list@.len(),
            views(list@) == all,
            views(lines@) + filled(all.skip(i as int), width as nat, current@) == views(start)
                + filled(all, width as nat, Seq::empty()),
        decreases list@.len() - i,
    {
        let ghost rest = all.skip(i as int);
        let ghost before = lines@;
        let ghost line_before = current@;
        assert(rest[0] == list@[i as int]@);
        assert(rest.drop_first() =~= all.skip(i + 1));
        let word: &String = &list[i];
        let used: usize = str_bytes(current.as_str());
        let more: usize = str_bytes(word.as_str());
        if current.as_str().is_empty() {
            current.append(word.as_str());
            assert(current@ =~= rest[0]);
        } else if used < width && more <= width - used - 1 {
            proof {
                reveal_strlit(" ");
            }
            current.append(" ");
            current.append(word.as_str());
            assert(current@ =~= line_before + seq![' '] + rest[0]);
        } else {
            let full: String = current;
            lines.push(full);
            current = word.clone();
            proof {
                views_push(before, full);
                assert(views(lines@) + filled(all.skip(i + 1), width as nat, current@)
                    =~= views(before) + filled(rest, width as nat, line_before));
            }
        }
        i = i + 1;
    }
    let ghost before = lines@;
    assert(all.skip(i as int).len() == 0);
    if !current.as_str().is_empty() {
        let ghost last = current;
        lines.push(current);
        proof {
            views_push(before, last);
            assert(views(lines@) =~= views(before) + seq![last@]);
        }
    } else {
        assert(views(lines@) =~= views(before) + Seq::<Seq<char>>::empty());
    }
}

/// Breaks a text into lines of at most `width` bytes, at its spaces and line endings.
pub fn wrap_text(text: &str, width: usize) -> (lines: Vec<String>)
    ensures
        views(lines@) == wrapped(text@, width as nat),
{
    let mut lines: Vec<String> = Vec::new();
    if width == 0 {
        assert(views(lines@) =~= Seq::<Seq<char>>::empty());
        return lines;
    }
    let chars: Vec<char> = chars_of(text);
    let line_feed: usize = find(&chars, 0, '\n');
    proof {
        assert(chars@.skip(0) =~= text@);
        first_of_bound(text@, '\n');
        if line_feed < text@.len() {
            assert(text@[line_feed as int] == '\n');
        }
        assert(text@.contains('\n') == (line_feed < text@.len()));
    }
    if str_bytes(text) <= width && line_feed == chars.len() {
        let line: String = text.to_owned();
        lines.push(line);
        assert(views(lines@) =~= seq![text@]);
        return lines;
    }
    let list: Vec<String> = split_lines(text);
    let ghost all = text_lines(text@);
    let mut i: usize = 0;
    assert(all.skip(0) =~= all);
    assert(views(lines@) + wrapped_lines(all, width as nat) =~= wrapped_lines(all, width as nat));
    while i < list.len()
        invariant
            i <= list@.len(),
            views(list@) == all,
            views(lines@) + wrapped_lines(all.skip(i as int), width as nat) == wrapped_lines(
                all,
                width as nat,
            ),
        decreases list@.len() - i,
    {
        let ghost rest = all.skip(i as int);
        let ghost before = views(lines@);
        assert(rest[0] == list@[i as int]@);
        assert(rest.drop_first() =~= all.skip(i + 1));
        wrap_line(list[i].as_str(), width, &mut lines);
        assert(views(lines@) + wrapped_lines(all.skip(i + 1), width as nat) =~= before
            + wrapped_lines(rest, width as nat));
        i = i + 1;
    }
    assert(views(lines@) =~= wrapped_lines(all, width as nat));
    lines
}

} // verus!
