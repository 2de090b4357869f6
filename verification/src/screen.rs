//! What the screen shows: how it is divided, and the lines in each part.

use ratatui::layout::{Constraint, Layout, Rect};
use vstd::prelude::*;

use crate::console::{last_of, the_end_of_a_list_is_its_last_items, History};
use crate::text::{decimal, push_decimal, views};
use crate::tokad::{State, StateRef};
use crate::tui::{Tui, TuiMode};
use crate::wrap::{wrap_text, wrapped};

verus! {

broadcast use vstd::string::group_string_axioms;

/// A part of the screen.
#[derive(Debug, Clone, Copy, PartialEq, Eq, Structural)]
pub struct Area {
    pub x: u16,
    pub y: u16,
    pub width: u16,
    pub height: u16,
}

/// How high a part of the screen is to be.
#[derive(Debug, Clone, Copy, PartialEq, Eq, Structural)]
pub enum Rows {
    /// So many rows.
    Length(u16),
    /// A share of the rows that are left, by weight.
    Fill(u16),
}

// ---------------------------------------------------------------------------------------------
// The parts of the screen
// ---------------------------------------------------------------------------------------------

/// The parts into which the screen is divided, from top to bottom: status and input where there
/// are two rows, and the log above them, with the console below it where both are shown, where
/// there are more. A lower screen is not divided.
pub open spec fn parts(height: u16, mode: TuiMode) -> Seq<Rows> {
    if height <= 1 {
        Seq::empty()
    } else if height == 2 {
        seq![Rows::Length(1), Rows::Length(1)]
    } else {
        match mode {
            TuiMode::FullLogs => seq![Rows::Fill(1), Rows::Length(1), Rows::Length(1)],
            TuiMode::Split => seq![
                Rows::Fill(1),
                Rows::Fill(1),
                Rows::Length(1),
                Rows::Length(1),
            ],
        }
    }
}

/// The parts into which the screen is divided, from top to bottom.
pub fn screen_parts(height: u16, mode: TuiMode) -> (rows: Vec<Rows>)
    ensures
        rows@ == parts(height, mode),
{
    let mut rows: Vec<Rows> = Vec::new();
    if height > 2 {
        rows.push(Rows::Fill(1));
        match mode {
            TuiMode::FullLogs => {},
            TuiMode::Split => {
                rows.push(Rows::Fill(1));
            },
        }
    }
    if height > 1 {
        rows.push(Rows::Length(1));
        rows.push(Rows::Length(1));
    }
    assert(rows@ =~= parts(height, mode));
    rows
}

/// The rows that parts of a fixed height take.
pub open spec fn fixed_rows(rows: Seq<Rows>) -> nat
    decreases rows.len(),
{
    if rows.len() == 0 {
        0
    } else {
        fixed_rows(rows.drop_last()) + match rows.last() {
            Rows::Length(n) => n as nat,
            Rows::Fill(_) => 0,
        }
    }
}

/// Whether the parts `i` and the next one, and no others, share what is left, by the same weight.
pub open spec fn twins(rows: Seq<Rows>, i: int) -> bool {
    &&& 0 <= i < rows.len() - 1
    &&& rows[i] is Fill
    &&& rows[i]->Fill_0 > 0
    &&& rows[i + 1] == rows[i]
    &&& forall|k: int| 0 <= k < rows.len() && k != i && k != i + 1 ==> (#[trigger] rows[k]) is Length
}

/// Whether the parts come out in whole and half rows: one part at most takes what is left, or two
/// neighbours share it by the same weight.
pub open spec fn plain(rows: Seq<Rows>) -> bool {
    ||| exists|i: int| #[trigger] twins(rows, i)
    ||| forall|i: int, j: int|
        0 <= i < rows.len() && 0 <= j < rows.len() && (#[trigger] rows[i]) is Fill && (
        #[trigger] rows[j]) is Fill ==> i == j
}

/// Whether `chunks` divide an area from top to bottom as `rows` asks. Each is as wide as the area
/// and begins at its left edge. Where the last row of the area can be counted, the parts of a fixed
/// height have room and the rest is divided plainly, the first part begins at the top, each begins
/// where the one above it ends, those of a fixed height have it, and where any part takes what is
/// left, the last one ends at the bottom. Two parts that share what is left are equally high, or
/// the upper one has a row more.
pub open spec fn stacked(chunks: Seq<Area>, area: Area, rows: Seq<Rows>) -> bool {
    &&& chunks.len() == rows.len()
    &&& forall|i: int|
        0 <= i < chunks.len() ==> (#[trigger] chunks[i]).x == area.x && chunks[i].width
            == area.width
    &&& area.y + area.height <= u16::MAX && fixed_rows(rows) <= area.height && plain(rows) ==> {
        &&& chunks.len() > 0 ==> chunks[0].y == area.y
        &&& forall|i: int, j: int|
            0 <= i && j == i + 1 && j < chunks.len() ==> (#[trigger] chunks[i]).y
                + chunks[i].height == (#[trigger] chunks[j]).y
        &&& forall|i: int|
            0 <= i < rows.len() && (#[trigger] rows[i]) is Length ==> chunks[i].height
                == rows[i]->Length_0
        &&& (exists|i: int| 0 <= i < rows.len() && (#[trigger] rows[i]) is Fill)
            ==> chunks.last().y + chunks.last().height == area.y + area.height
        &&& forall|i: int| #[trigger]
            twins(rows, i) ==> chunks[i + 1].height <= chunks[i].height <= chunks[i + 1].height + 1
    }
}

/// Divides an area from top to bottom with `Layout::vertical` and `Layout::split`. Trusted: the
/// parts are stacked as `stacked` says. The layout keeps all edges within the area, leaves no room
/// before or between the parts, holds `Constraint::Length` above all wishes to grow, and lets each
/// `Constraint::Fill` grow as far as it can, by weight; a half row is rounded down the screen.
/// Nothing is said of an area that reaches beyond the last row that can be counted, of parts that
/// have no room, or of a rest that is shared in another way.
#[verifier::external_body]
fn split_area(area: Area, rows: &Vec<Rows>) -> (chunks: Vec<Area>)
    ensures
        stacked(chunks@, area, rows@),
{
    let rows = rows.iter().map(|row| match row {
        Rows::Length(n) => Constraint::Length(*n),
        Rows::Fill(n) => Constraint::Fill(*n),
    });
    let chunks = Layout::vertical(rows).split(Rect {
        x: area.x,
        y: area.y,
        width: area.width,
        height: area.height,
    });
    chunks.iter().map(|r| Area { x: r.x, y: r.y, width: r.width, height: r.height }).collect()
}

/// Where everything stands on the screen.
#[derive(Debug, Clone, Copy, PartialEq, Eq, Structural)]
pub struct Division {
    pub log: Area,
    pub console: Option<Area>,
    pub status: Area,
    pub input: Area,
}

/// The area without rows and columns.
pub open spec fn no_area() -> Area {
    Area { x: 0, y: 0, width: 0, height: 0 }
}

/// Where everything stands on a screen that is divided into `chunks`.
pub open spec fn division(area: Area, mode: TuiMode, chunks: Seq<Area>) -> Division {
    if area.height <= 1 {
        Division { log: no_area(), console: None, status: no_area(), input: area }
    } else if area.height == 2 {
        Division { log: no_area(), console: None, status: chunks[0], input: chunks[1] }
    } else {
        match mode {
            TuiMode::FullLogs => Division {
                log: chunks[0],
                console: None,
                status: chunks[1],
                input: chunks[2],
            },
            TuiMode::Split => Division {
                log: chunks[0],
                console: Some(chunks[1]),
                status: chunks[2],
                input: chunks[3],
            },
        }
    }
}

/// Where everything stands on a screen that is divided into `chunks`.
pub fn divide(area: Area, mode: TuiMode, chunks: &Vec<Area>) -> (parts: Division)
    requires
        chunks@.len() == parts(area.height, mode).len(),
    ensures
        parts == division(area, mode, chunks@),
{
    let nothing: Area = Area { x: 0, y: 0, width: 0, height: 0 };
    if area.height <= 1 {
        Division { log: nothing, console: None, status: nothing, input: area }
    } else if area.height == 2 {
        Division { log: nothing, console: None, status: chunks[0], input: chunks[1] }
    } else {
        match mode {
            TuiMode::FullLogs => Division {
                log: chunks[0],
                console: None,
                status: chunks[1],
                input: chunks[2],
            },
            TuiMode::Split => Division {
                log: chunks[0],
                console: Some(chunks[1]),
                status: chunks[2],
                input: chunks[3],
            },
        }
    }
}

/// Whether `chunks` divide the screen as its height and the mode ask.
pub open spec fn divided(chunks: Seq<Area>, area: Area, mode: TuiMode) -> bool {
    stacked(chunks, area, parts(area.height, mode))
}

/// Some rows of an area.
pub open spec fn rows_of(area: Area, first: int, count: int) -> Area {
    Area { x: area.x, y: (area.y + first) as u16, width: area.width, height: count as u16 }
}

/// Where everything stands on a screen whose last row can be counted. The last row is the line
/// that is typed, the row above it the status, and the rest the log, with the console in its lower
/// half where both are shown. On two rows there is neither log nor console, and on one no status
/// either.
pub open spec fn laid_out(area: Area, mode: TuiMode) -> Division {
    let h = area.height as int;
    if h <= 1 {
        Division { log: no_area(), console: None, status: no_area(), input: area }
    } else {
        let status = rows_of(area, h - 2, 1);
        let input = rows_of(area, h - 1, 1);
        if h == 2 {
            Division { log: no_area(), console: None, status, input }
        } else {
            match mode {
                TuiMode::FullLogs => Division {
                    log: rows_of(area, 0, h - 2),
                    console: None,
                    status,
                    input,
                },
                TuiMode::Split => Division {
                    log: rows_of(area, 0, (h - 1) / 2),
                    console: Some(rows_of(area, (h - 1) / 2, (h - 2) / 2)),
                    status,
                    input,
                },
            }
        }
    }
}

/// Every division of a screen gives the same places: the last row is the line that is typed, the
/// row above it the status, the rest the log, and a console stands below the log exactly where
/// both are shown and there are three rows or more.
pub proof fn division_is_laid_out(area: Area, mode: TuiMode, chunks: Seq<Area>)
    requires
        area.y + area.height <= u16::MAX,
        divided(chunks, area, mode),
    ensures
        division(area, mode, chunks) == laid_out(area, mode),
        laid_out(area, mode).console is Some <==> mode == TuiMode::Split && area.height >= 3,
{
    let rows = parts(area.height, mode);
    let h = area.height as int;
    reveal_with_fuel(fixed_rows, 5);
    if h == 2 {
        assert(rows.drop_last() =~= seq![Rows::Length(1)]);
        assert(rows.drop_last().drop_last() =~= Seq::<Rows>::empty());
        assert(fixed_rows(rows) == 2);
        assert(rows[0] is Length && rows[1] is Length);
        assert(chunks[0].y + chunks[0].height == chunks[1].y);
    } else if h > 2 {
        assert(rows[0] is Fill);
        match mode {
            TuiMode::FullLogs => {
                assert(rows.drop_last() =~= seq![Rows::Fill(1), Rows::Length(1)]);
                assert(rows.drop_last().drop_last() =~= seq![Rows::Fill(1)]);
                assert(rows.drop_last().drop_last().drop_last() =~= Seq::<Rows>::empty());
                assert(fixed_rows(rows) == 2);
                assert(rows[1] is Length && rows[2] is Length);
                assert(plain(rows));
                assert(chunks[0].y + chunks[0].height == chunks[1].y);
                assert(chunks[1].y + chunks[1].height == chunks[2].y);
            },
            TuiMode::Split => {
                let front = seq![Rows::Fill(1), Rows::Fill(1)];
                assert(rows.drop_last() =~= front.push(Rows::Length(1)));
                assert(rows.drop_last().drop_last() =~= front);
                assert(front.drop_last() =~= seq![Rows::Fill(1)]);
                assert(front.drop_last().drop_last() =~= Seq::<Rows>::empty());
                assert(fixed_rows(rows) == 2);
                assert(rows[2] is Length && rows[3] is Length);
                assert(twins(rows, 0));
                assert(chunks[0].y + chunks[0].height == chunks[1].y);
                assert(chunks[1].y + chunks[1].height == chunks[2].y);
                assert(chunks[2].y + chunks[2].height == chunks[3].y);
            },
        }
    }
}

/// Divides the screen.
pub fn divide_screen(area: Area, mode: TuiMode) -> (parts: Division)
    ensures
        exists|chunks: Seq<Area>| #[trigger]
            divided(chunks, area, mode) && parts == division(area, mode, chunks),
        area.y + area.height <= u16::MAX ==> parts == laid_out(area, mode),
{
    let rows: Vec<Rows> = screen_parts(area.height, mode);
    let chunks: Vec<Area> = if rows.len() == 0 {
        Vec::new()
    } else {
        split_area(area, &rows)
    };
    proof {
        assert(divided(chunks@, area, mode));
        if area.y + area.height <= u16::MAX {
            division_is_laid_out(area, mode, chunks@);
        }
    }
    divide(area, mode, &chunks)
}

// ---------------------------------------------------------------------------------------------
// The console
// ---------------------------------------------------------------------------------------------

/// All lines of a console, each broken to the width, the oldest first.
pub open spec fn all_wrapped(lines: Seq<Seq<char>>, width: nat) -> Seq<Seq<char>>
    decreases lines.len(),
{
    if lines.len() == 0 {
        Seq::empty()
    } else {
        all_wrapped(lines.drop_last(), width) + wrapped(lines.last(), width)
    }
}

/// The end of a list stays when something is put before it.
proof fn lemma_last_of_end(front: Seq<Seq<char>>, end: Seq<Seq<char>>, count: nat)
    requires
        end.len() >= count,
    ensures
        last_of(front + end, count) == last_of(end, count),
{
    assert(last_of(front + end, count) =~= last_of(end, count));
}

fn joined_lists(front: Vec<String>, end: Vec<String>) -> (all: Vec<String>)
    ensures
        views(all@) == views(front@) + views(end@),
{
    let mut all: Vec<String> = front;
    let mut rest: Vec<String> = end;
    all.append(&mut rest);
    assert(views(all@) =~= views(front@) + views(end@));
    all
}

impl History {
    /// The last lines, broken to the width, as many as there are rows.
    pub fn tail(&self, width: usize, rows: usize) -> (shown: Vec<String>)
        ensures
            views(shown@) == last_of(all_wrapped(self@.lines, width as nat), rows as nat),
    {
        let list: Vec<String> = self.newest();
        let mut lines: Vec<String> = Vec::new();
        let mut i: usize = 0;
        let ghost all = self@.lines;
        let ghost w = width as nat;
        assert(views(lines@) =~= Seq::<Seq<char>>::empty());
        assert(all.take(all.len() as int) =~= all);
        assert(all_wrapped(all, w) =~= all_wrapped(all, w) + views(lines@));
        while i < list.len()
            invariant
                i <= list@.len(),
                views(list@) == all.reverse(),
                w == width,
                all_wrapped(all, w) == all_wrapped(all.take(all.len() - i), w) + views(lines@),
            ensures
                i == list@.len() || lines@.len() >= rows,
            decreases list@.len() - i,
        {
            let ghost shorter = all.take(all.len() - i);
            let ghost before = views(lines@);
            proof {
                assert(list@.len() == views(list@).len());
                assert(views(list@)[i as int] == list@[i as int]@);
                assert(shorter.last() == list@[i as int]@);
                assert(shorter.drop_last() =~= all.take(all.len() - i - 1));
            }
            let newer: Vec<String> = lines;
            lines = joined_lists(wrap_text(list[i].as_str(), width), newer);
            i = i + 1;
            assert(all_wrapped(all, w) =~= all_wrapped(all.take(all.len() - i), w) + views(
                lines@,
            ));
            if lines.len() >= rows {
                break ;
            }
        }
        proof {
            assert(views(lines@).len() == lines@.len());
            assert(list@.len() == views(list@).len());
            if lines@.len() >= rows {
                lemma_last_of_end(
                    all_wrapped(all.take(all.len() - i), w),
                    views(lines@),
                    rows as nat,
                );
            } else {
                assert(all.take(0) =~= Seq::<Seq<char>>::empty());
                assert(all_wrapped(all, w) =~= views(lines@));
            }
        }
        if lines.len() > rows {
            let at: usize = lines.len() - rows;
            let end: Vec<String> = lines.split_off(at);
            assert(views(end@) =~= last_of(views(lines@) + views(end@), rows as nat));
            end
        } else {
            lines
        }
    }
}

// ---------------------------------------------------------------------------------------------
// The status line
// ---------------------------------------------------------------------------------------------

/// How a mode is called on the screen.
pub open spec fn mode_name(mode: TuiMode) -> Seq<char> {
    match mode {
        TuiMode::FullLogs => "Full Logs"@,
        TuiMode::Split => "Split Mode"@,
    }
}

/// What the status line says.
pub open spec fn status_words(id: u128, port: u16, mode: TuiMode) -> Seq<char> {
    " Node ID: "@ + decimal(id as nat) + " | Port: "@ + decimal(port as nat) + " | Layout: "@
        + mode_name(mode) + " (Press Tab to toggle)"@
}

/// A text of one-byte characters, cut to the width or filled up with spaces.
pub open spec fn fitted(text: Seq<char>, width: nat) -> Seq<char> {
    if text.len() > width {
        text.take(width as int)
    } else {
        text + Seq::new((width - text.len()) as nat, |i: int| ' ')
    }
}

fn fit(text: String, width: usize) -> (s: String)
    ensures
        s@ == fitted(text@, width as nat),
{
    let n: usize = text.as_str().unicode_len();
    if n > width {
        let cut: &str = text.as_str().substring_char(0, width);
        assert(cut@ =~= text@.take(width as int));
        return cut.to_owned();
    }
    let mut s: String = text;
    let mut i: usize = n;
    assert(s@ =~= text@ + Seq::new(0, |i: int| ' '));
    while i < width
        invariant
            n <= i <= width,
            n == text@.len(),
            s@ == text@ + Seq::new((i - n) as nat, |i: int| ' '),
        decreases width - i,
    {
        proof {
            reveal_strlit(" ");
        }
        s.append(" ");
        i = i + 1;
        assert(s@ =~= text@ + Seq::new((i - n) as nat, |i: int| ' '));
    }
    s
}

/// The status line of a node.
pub fn status_line(server: &State, mode: TuiMode, width: usize) -> (s: String)
    ensures
        s@ == fitted(status_words(server.id, server.port, mode), width as nat),
{
    let mut s: String = " Node ID: ".to_owned();
    push_decimal(&mut s, server.id);
    s.append(" | Port: ");
    push_decimal(&mut s, server.port as u128);
    s.append(" | Layout: ");
    match mode {
        TuiMode::FullLogs => s.append("Full Logs"),
        TuiMode::Split => s.append("Split Mode"),
    }
    s.append(" (Press Tab to toggle)");
    fit(s, width)
}

/// The status line fills its row: it is exactly as wide as the row, and begins as what it says
/// does, as far as that fits.
pub proof fn status_fills_its_row(id: u128, port: u16, mode: TuiMode, width: nat)
    ensures
        ({
            let says = status_words(id, port, mode);
            let line = fitted(says, width);
            &&& line.len() == width
            &&& forall|i: int| 0 <= i < line.len() && i < says.len() ==> line[i] == says[i]
        }),
{
}

// ---------------------------------------------------------------------------------------------
// The line that is typed
// ---------------------------------------------------------------------------------------------

/// The column at which the cursor stands in a text that is typed, when it stands behind `cursor`
/// characters.
pub uninterp spec fn cursor_column(text: Seq<char>, cursor: usize) -> usize;

/// How far a text that is typed is scrolled to keep the cursor within a width.
pub uninterp spec fn scroll_of(text: Seq<char>, cursor: usize, width: usize) -> usize;

/// Calls `Input::visual_cursor` of `tui-input` for a text and a cursor. Trusted: the result is a
/// function of both.
#[verifier::external_body]
fn input_cursor(text: &str, cursor: usize) -> (column: usize)
    ensures
        column == cursor_column(text@, cursor),
{
    tui_input::Input::new(text.to_owned()).with_cursor(cursor).visual_cursor()
}

/// Calls `Input::visual_scroll` of `tui-input` for a text and a cursor. Trusted: the result is a
/// function of both and of the width.
#[verifier::external_body]
fn input_scroll(text: &str, cursor: usize, width: usize) -> (scroll: usize)
    ensures
        scroll == scroll_of(text@, cursor, width),
{
    tui_input::Input::new(text.to_owned()).with_cursor(cursor).visual_scroll(width)
}

/// The line that is typed, as it is shown.
#[derive(Debug, Clone, PartialEq, Eq)]
pub struct InputLine {
    pub area: Area,
    pub text: String,
    pub cursor_x: u16,
    pub cursor_y: u16,
}

/// The view of an `InputLine`.
pub struct InputLineView {
    pub area: Area,
    pub text: Seq<char>,
    pub cursor_x: u16,
    pub cursor_y: u16,
}

impl View for InputLine {
    type V = InputLineView;

    open spec fn view(&self) -> InputLineView {
        InputLineView {
            area: self.area,
            text: self.text@,
            cursor_x: self.cursor_x,
            cursor_y: self.cursor_y,
        }
    }
}

/// The part of an area in which a line is typed: the last column stays free, where there is more
/// than one.
pub open spec fn typing_area(area: Area) -> Area {
    if area.width > 1 {
        Area { width: (area.width - 1) as u16, ..area }
    } else {
        area
    }
}

/// How far the cursor stands from the left edge.
pub open spec fn cursor_offset(scroll: usize, column: usize) -> u16 {
    (if column > scroll {
        column - scroll
    } else {
        0
    }) as u16
}

/// The characters of a text from `start` on, at most `count`.
pub open spec fn window(text: Seq<char>, start: nat, count: nat) -> Seq<char> {
    if start >= text.len() {
        Seq::empty()
    } else if text.len() - start > count {
        text.subrange(start as int, (start + count) as int)
    } else {
        text.skip(start as int)
    }
}

/// The line that is typed, as it is shown in an area when it is scrolled so far and the cursor
/// stands at `column`.
pub open spec fn typed(area: Area, text: Seq<char>, scroll: usize, column: usize) -> InputLineView {
    let room = typing_area(area);
    InputLineView {
        area: room,
        text: window(text, scroll as nat, room.width as nat),
        cursor_x: (room.x + cursor_offset(scroll, column)) as u16,
        cursor_y: room.y,
    }
}

/// Shows the line that is typed, scrolled so far and with the cursor at `column`.
pub fn show_input(area: Area, text: &str, scroll: usize, column: usize) -> (line: InputLine)
    requires
        area.x + cursor_offset(scroll, column) <= u16::MAX,
    ensures
        line@ == typed(area, text@, scroll, column),
{
    let width: u16 = if area.width > 1 {
        area.width - 1
    } else {
        area.width
    };
    let room: Area = Area { x: area.x, y: area.y, width, height: area.height };
    let n: usize = text.unicode_len();
    let start: usize = if scroll < n {
        scroll
    } else {
        n
    };
    let end: usize = if n - start > width as usize {
        start + width as usize
    } else {
        n
    };
    let shown: String = text.substring_char(start, end).to_owned();
    assert(shown@ =~= window(text@, scroll as nat, width as nat));
    let offset: usize = if column > scroll {
        column - scroll
    } else {
        0
    };
    let offset: u16 = #[verifier::truncate] (offset as u16);
    InputLine { area: room, text: shown, cursor_x: room.x + offset, cursor_y: room.y }
}

/// Shows a text that is typed, with the cursor behind `cursor` characters; nothing where the
/// cursor would stand beyond the last column that there can be.
pub fn draw_input(area: Area, text: &str, cursor: usize) -> (line: Option<InputLine>)
    ensures
        ({
            let scroll = scroll_of(text@, cursor, typing_area(area).width as usize);
            let column = cursor_column(text@, cursor);
            match line {
                Some(line) => {
                    &&& area.x + cursor_offset(scroll, column) <= u16::MAX
                    &&& line@ == typed(area, text@, scroll, column)
                },
                None => area.x + cursor_offset(scroll, column) > u16::MAX,
            }
        }),
{
    let width: u16 = if area.width > 1 {
        area.width - 1
    } else {
        area.width
    };
    let scroll: usize = input_scroll(text, cursor, width as usize);
    let column: usize = input_cursor(text, cursor);
    let offset: usize = if column > scroll {
        column - scroll
    } else {
        0
    };
    let offset: u16 = #[verifier::truncate] (offset as u16);
    if offset <= u16::MAX - area.x {
        Some(show_input(area, text, scroll, column))
    } else {
        None
    }
}

// ---------------------------------------------------------------------------------------------
// The whole screen
// ---------------------------------------------------------------------------------------------

/// The lines of a console in their part of the screen.
#[derive(Debug)]
pub struct ConsolePart {
    pub area: Area,
    pub lines: Vec<String>,
}

/// The status line in its part of the screen.
#[derive(Debug)]
pub struct StatusPart {
    pub area: Area,
    pub line: String,
}

/// What the screen shows. A part without rows is not drawn.
#[derive(Debug)]
pub struct Screen {
    /// Where the log stands.
    pub log: Option<Area>,
    pub console: Option<ConsolePart>,
    pub status: Option<StatusPart>,
    /// Where the line that is typed stands.
    pub input: Option<Area>,
}

/// Whether `part` is the console with the given lines in the given area, if it has any rows.
pub open spec fn shows_console(
    part: Option<ConsolePart>,
    area: Option<Area>,
    lines: Seq<Seq<char>>,
) -> bool {
    match (part, area) {
        (Some(part), Some(area)) => {
            &&& area.height > 0
            &&& part.area == area
            &&& views(part.lines@) == last_of(
                all_wrapped(lines, area.width as nat),
                area.height as nat,
            )
        },
        (None, Some(area)) => area.height == 0,
        (None, None) => true,
        (Some(_), None) => false,
    }
}

/// Whether `screen` is what is to be shown on a screen that is divided so.
pub open spec fn shows(
    screen: Screen,
    parts: Division,
    lines: Seq<Seq<char>>,
    id: u128,
    port: u16,
    mode: TuiMode,
) -> bool {
    &&& screen.log == (if parts.log.height > 0 {
        Some(parts.log)
    } else {
        None
    })
    &&& shows_console(screen.console, parts.console, lines)
    &&& match screen.status {
        Some(part) => {
            &&& parts.status.height > 0
            &&& part.area == parts.status
            &&& part.line@ == fitted(status_words(id, port, mode), parts.status.width as nat)
        },
        None => parts.status.height == 0,
    }
    &&& screen.input == (if parts.input.height > 0 {
        Some(parts.input)
    } else {
        None
    })
}

fn drawable(area: Area) -> (part: Option<Area>)
    ensures
        part == (if area.height > 0 {
            Some(area)
        } else {
            None
        }),
{
    if area.height > 0 {
        Some(area)
    } else {
        None
    }
}

impl Tui {
    /// What a screen shows that is divided so.
    pub fn fill(&self, server: StateRef<'_>, parts: Division) -> (screen: Screen)
        ensures
            shows(
                screen,
                parts,
                self.console_history@.lines,
                server.state.id,
                server.state.port,
                self.mode,
            ),
    {
        let console: Option<ConsolePart> = match parts.console {
            Some(area) => if area.height > 0 {
                let lines: Vec<String> = self.console_history.tail(
                    area.width as usize,
                    area.height as usize,
                );
                Some(ConsolePart { area, lines })
            } else {
                None
            },
            None => None,
        };
        let status: Option<StatusPart> = if parts.status.height > 0 {
            let line: String = status_line(server.state, self.mode, parts.status.width as usize);
            Some(StatusPart { area: parts.status, line })
        } else {
            None
        };
        Screen { log: drawable(parts.log), console, status, input: drawable(parts.input) }
    }

    /// What the screen shows.
    pub fn render(&self, server: StateRef<'_>, area: Area) -> (screen: Screen)
        ensures
            exists|chunks: Seq<Area>| #[trigger]
                divided(chunks, area, self.mode) && shows(
                    screen,
                    division(area, self.mode, chunks),
                    self.console_history@.lines,
                    server.state.id,
                    server.state.port,
                    self.mode,
                ),
            area.y + area.height <= u16::MAX ==> shows(
                screen,
                laid_out(area, self.mode),
                self.console_history@.lines,
                server.state.id,
                server.state.port,
                self.mode,
            ),
    {
        let parts: Division = divide_screen(area, self.mode);
        self.fill(server, parts)
    }
}

/// The line that is typed stands on the last row of the screen and on no other. It leaves the last
/// column free, where there is more than one, and shows one run of the text that fits before it.
pub proof fn typed_line_stands_on_the_last_row(
    area: Area,
    mode: TuiMode,
    text: Seq<char>,
    scroll: usize,
    column: usize,
)
    requires
        area.y + area.height <= u16::MAX,
        area.height > 0,
    ensures
        ({
            let line = typed(laid_out(area, mode).input, text, scroll, column);
            &&& line.area.y == area.y + area.height - 1
            &&& line.area.height == 1
            &&& line.area.x == area.x
            &&& line.cursor_y == line.area.y
            &&& area.width > 1 ==> line.area.width == area.width - 1
            &&& line.text.len() <= line.area.width
            &&& exists|start: int|
                0 <= start <= text.len() - line.text.len() && line.text == #[trigger] text.subrange(
                    start,
                    start + line.text.len(),
                )
        }),
{
    let line = typed(laid_out(area, mode).input, text, scroll, column);
    let start: int = if scroll < text.len() {
        scroll as int
    } else {
        0
    };
    assert(line.text =~= text.subrange(start, start + line.text.len()));
}

/// Which rows everything takes, counted from the top, on a screen of so many rows: the last is the
/// line that is typed, the one above it the status, and all others are the log and the console. In
/// the mode that shows both, the log has the upper half and the console the lower, the log one row
/// more where they cannot be equal; in the other the log has them all.
pub proof fn every_row_has_its_use(area: Area, mode: TuiMode)
    requires
        area.y + area.height <= u16::MAX,
    ensures
        ({
            let parts = laid_out(area, mode);
            let h = area.height as int;
            &&& h <= 1 ==> parts.input == area && parts.log.height == 0 && parts.status.height == 0
            &&& h >= 2 ==> {
                &&& parts.input.x == area.x && parts.input.width == area.width
                &&& parts.input.y == area.y + h - 1 && parts.input.height == 1
                &&& parts.status.x == area.x && parts.status.width == area.width
                &&& parts.status.y == area.y + h - 2 && parts.status.height == 1
            }
            &&& h == 2 ==> parts.log.height == 0
            &&& h >= 3 ==> {
                &&& parts.log.x == area.x && parts.log.width == area.width
                &&& parts.log.y == area.y
            }
            &&& parts.console is Some <==> h >= 3 && mode == TuiMode::Split
            &&& h >= 3 && mode == TuiMode::FullLogs ==> parts.log.height == h - 2
            &&& h >= 3 && mode == TuiMode::Split ==> {
                let console = parts.console->0;
                &&& console.x == area.x && console.width == area.width
                &&& console.y == parts.log.y + parts.log.height
                &&& parts.log.height + console.height == h - 2
                &&& console.height <= parts.log.height <= console.height + 1
            }
        }),
{
}

/// A screen that is filled shows each part that has rows, in its place, and no other: the console
/// with the last of its lines, broken to the width of the part, as many as it has rows; and the
/// status with as many characters as its part has columns.
pub proof fn a_filled_screen_shows_its_parts(
    screen: Screen,
    parts: Division,
    lines: Seq<Seq<char>>,
    id: u128,
    port: u16,
    mode: TuiMode,
)
    requires
        shows(screen, parts, lines, id, port, mode),
    ensures
        screen.log is Some <==> parts.log.height > 0,
        screen.log is Some ==> screen.log->0 == parts.log,
        screen.input is Some <==> parts.input.height > 0,
        screen.input is Some ==> screen.input->0 == parts.input,
        screen.status is Some <==> parts.status.height > 0,
        screen.status is Some ==> screen.status->0.area == parts.status
            && screen.status->0.line@.len() == parts.status.width,
        screen.console is Some <==> parts.console is Some && parts.console->0.height > 0,
        screen.console is Some ==> {
            let area = parts.console->0;
            let all = all_wrapped(lines, area.width as nat);
            let shown = views(screen.console->0.lines@);
            &&& screen.console->0.area == area
            &&& shown.len() == if all.len() < area.height {
                all.len()
            } else {
                area.height as nat
            }
            &&& forall|i: int|
                0 <= i < shown.len() ==> #[trigger] shown[i] == all[all.len() - shown.len() + i]
        },
{
    if screen.console is Some {
        let area = parts.console->0;
        the_end_of_a_list_is_its_last_items(
            all_wrapped(lines, area.width as nat),
            area.height as nat,
        );
    }
}

/// The lines of a console are shown one below the other, each broken by itself.
pub proof fn lines_are_shown_one_below_the_other(
    lines: Seq<Seq<char>>,
    line: Seq<char>,
    width: nat,
)
    ensures
        all_wrapped(Seq::<Seq<char>>::empty(), width) == Seq::<Seq<char>>::empty(),
        all_wrapped(lines.push(line), width) == all_wrapped(lines, width) + wrapped(line, width),
{
    assert(lines.push(line).drop_last() =~= lines);
}

/// The status says which node it is, where it listens and what is shown; it fills its row with
/// spaces, or is cut at its end.
pub proof fn the_status_says_who_and_how(id: u128, port: u16, width: nat)
    ensures
        status_words(id, port, TuiMode::FullLogs) == " Node ID: "@ + decimal(id as nat)
            + " | Port: "@ + decimal(port as nat) + " | Layout: "@ + "Full Logs"@
            + " (Press Tab to toggle)"@,
        status_words(id, port, TuiMode::Split) == " Node ID: "@ + decimal(id as nat) + " | Port: "@
            + decimal(port as nat) + " | Layout: "@ + "Split Mode"@ + " (Press Tab to toggle)"@,
        forall|text: Seq<char>| #[trigger] fitted(text, width).len() == width,
        forall|text: Seq<char>, i: int|
            0 <= i < width ==> #[trigger] fitted(text, width)[i] == (if i < text.len() {
                text[i]
            } else {
                ' '
            }),
{
}

/// What is shown of the line that is typed: its characters from where it is scrolled to, in their
/// order, as many as fit; and the cursor stands as many columns from the left edge as it is ahead
/// of the scrolling, on the same row.
pub proof fn the_typed_line_is_shown_from_its_scroll(
    area: Area,
    text: Seq<char>,
    scroll: usize,
    column: usize,
)
    requires
        area.x + cursor_offset(scroll, column) <= u16::MAX,
    ensures
        ({
            let line = typed(area, text, scroll, column);
            let width = if area.width > 1 {
                area.width - 1
            } else {
                area.width as int
            };
            &&& line.area.x == area.x && line.area.y == area.y && line.area.height == area.height
            &&& line.area.width == width
            &&& scroll >= text.len() ==> line.text.len() == 0
            &&& scroll < text.len() ==> line.text.len() == if text.len() - scroll < width {
                text.len() - scroll
            } else {
                width
            }
            &&& forall|i: int| 0 <= i < line.text.len() ==> #[trigger] line.text[i] == text[scroll + i]
            &&& column <= scroll ==> line.cursor_x == area.x
            &&& scroll < column && column - scroll <= u16::MAX ==> line.cursor_x == area.x + (column
                - scroll)
            &&& line.cursor_y == area.y
        }),
{
}

/// The view of the line that is typed is all of it.
pub proof fn input_views_hold_all_fields(line: InputLine)
    ensures
        line@.area == line.area,
        line@.text == line.text@,
        line@.cursor_x == line.cursor_x,
        line@.cursor_y == line.cursor_y,
{
}

} // verus!
