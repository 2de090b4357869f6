use tokad::clock::Timestamp;
use tokad::screen::{
    divide, divide_screen, draw_input, screen_parts, show_input, status_line, Area, Division, Rows,
};
use tokad::tokad::State;
use tokad::tui::{Tui, TuiMode};

fn area(x: u16, y: u16, width: u16, height: u16) -> Area {
    Area { x, y, width, height }
}

fn state() -> State {
    State::new(7, 4000, Timestamp { nanos: 0 }, &vec![0; 32])
}

const STATUS: &str = " Node ID: 7 | Port: 4000 | Layout: Split Mode (Press Tab to toggle)";

#[test]
fn the_screen_has_parts_by_its_height() {
    assert!(screen_parts(0, TuiMode::Split).is_empty());
    assert!(screen_parts(1, TuiMode::Split).is_empty());
    assert_eq!(screen_parts(2, TuiMode::Split), vec![Rows::Length(1), Rows::Length(1)]);
    assert_eq!(
        screen_parts(3, TuiMode::FullLogs),
        vec![Rows::Fill(1), Rows::Length(1), Rows::Length(1)],
    );
    assert_eq!(
        screen_parts(24, TuiMode::Split),
        vec![Rows::Fill(1), Rows::Fill(1), Rows::Length(1), Rows::Length(1)],
    );
}

#[test]
fn a_low_screen_is_all_input() {
    let whole = area(3, 4, 10, 1);
    let parts = divide_screen(whole, TuiMode::Split);
    assert_eq!(parts.input, whole);
    assert_eq!(parts.log, area(0, 0, 0, 0));
    assert_eq!(parts.status, area(0, 0, 0, 0));
    assert_eq!(parts.console, None);
}

#[test]
fn two_rows_hold_status_and_input() {
    let parts = divide_screen(area(3, 4, 10, 2), TuiMode::Split);
    assert_eq!(parts.status, area(3, 4, 10, 1));
    assert_eq!(parts.input, area(3, 5, 10, 1));
    assert_eq!(parts.console, None);
}

#[test]
fn a_high_screen_shows_the_log_and_the_console() {
    let parts = divide_screen(area(0, 0, 80, 24), TuiMode::Split);
    assert_eq!(parts.log, area(0, 0, 80, 11));
    assert_eq!(parts.console, Some(area(0, 11, 80, 11)));
    assert_eq!(parts.status, area(0, 22, 80, 1));
    assert_eq!(parts.input, area(0, 23, 80, 1));
    let parts = divide_screen(area(0, 0, 80, 24), TuiMode::FullLogs);
    assert_eq!(parts.log, area(0, 0, 80, 22));
    assert_eq!(parts.console, None);
    assert_eq!(parts.input, area(0, 23, 80, 1));
}

#[test]
fn every_height_is_laid_out_the_same_way() {
    for (x, y, height) in (2..200).flat_map(|h| [(0, 0, h), (3, 7, h), (1, 65535 - h, h)]) {
        let rest = height - 2;
        let whole = area(x, y, 80, height);
        for mode in [TuiMode::Split, TuiMode::FullLogs] {
            let parts = divide_screen(whole, mode);
            assert_eq!(parts.input, area(x, y + height - 1, 80, 1));
            assert_eq!(parts.status, area(x, y + height - 2, 80, 1));
            if rest == 0 {
                assert_eq!((parts.log, parts.console), (area(0, 0, 0, 0), None));
            } else if mode == TuiMode::FullLogs {
                assert_eq!((parts.log, parts.console), (area(x, y, 80, rest), None));
            } else {
                let upper = rest.div_ceil(2);
                assert_eq!(parts.log, area(x, y, 80, upper));
                assert_eq!(parts.console, Some(area(x, y + upper, 80, rest - upper)));
            }
        }
    }
}

#[test]
fn the_typed_line_stands_on_the_last_row() {
    let state = state();
    for height in 1..40 {
        let screen = Tui::new().render(state.get_ref(), area(2, 3, 10, height));
        let line = draw_input(screen.input.unwrap(), "hello world", 11).unwrap();
        assert_eq!(line.area, area(2, 3 + height - 1, 9, 1));
        assert_eq!(line.cursor_y, 3 + height - 1);
        assert!(line.text.len() <= 9 && "hello world".contains(&line.text));
    }
}

#[test]
fn given_chunks_take_their_places() {
    let chunks = vec![area(0, 0, 1, 1), area(0, 1, 1, 1), area(0, 2, 1, 1), area(0, 3, 1, 1)];
    let parts = divide(area(0, 0, 1, 4), TuiMode::Split, &chunks);
    assert_eq!(
        parts,
        Division {
            log: chunks[0],
            console: Some(chunks[1]),
            status: chunks[2],
            input: chunks[3],
        },
    );
}

#[test]
fn the_status_fills_its_row() {
    let state = state();
    for width in [0, 1, 20, 66, 67, 68, 100] {
        let line = status_line(&state, TuiMode::Split, width);
        assert_eq!(line.chars().count(), width);
        let shared = width.min(STATUS.len());
        assert_eq!(line[..shared], STATUS[..shared]);
        assert!(line[shared..].chars().all(|c| c == ' '));
    }
    assert!(status_line(&state, TuiMode::FullLogs, 80).contains("| Layout: Full Logs (Press"));
}

#[test]
fn the_typed_line_keeps_the_last_column_free() {
    let line = show_input(area(2, 9, 6, 1), "hello world", 0, 3);
    assert_eq!(line.area, area(2, 9, 5, 1));
    assert_eq!(line.text, "hello");
    assert_eq!((line.cursor_x, line.cursor_y), (5, 9));
    let line = show_input(area(2, 9, 1, 1), "hello", 4, 2);
    assert_eq!(line.area, area(2, 9, 1, 1));
    assert_eq!(line.text, "o");
    assert_eq!(line.cursor_x, 2);
    assert_eq!(show_input(area(0, 0, 9, 1), "abc", 7, 7).text, "");
}

#[test]
fn a_long_line_is_scrolled_to_its_cursor() {
    let line = draw_input(area(0, 0, 6, 1), "hello world", 11).unwrap();
    assert_eq!(line.text, "world");
    assert_eq!(line.cursor_x, 5);
    let line = draw_input(area(0, 0, 6, 1), "hello world", 0).unwrap();
    assert_eq!(line.text, "hello");
    assert_eq!(line.cursor_x, 0);
    let line = draw_input(area(0, 0, 20, 1), "日本", 1).unwrap();
    assert_eq!(line.text, "日本");
    assert_eq!(line.cursor_x, 2);
}

#[test]
fn a_cursor_beyond_the_last_column_is_not_drawn() {
    assert!(draw_input(area(65535, 0, 6, 1), "hello", 5).is_none());
    assert!(draw_input(area(65530, 0, 6, 1), "hello", 5).is_some());
}

#[test]
fn the_whole_screen_is_filled() {
    let state = state();
    let mut tui = Tui::new();
    tui.console_history.push("one".to_string());
    tui.console_history.push("two".to_string());
    tui.console_history.push("three".to_string());
    let screen = tui.render(state.get_ref(), area(0, 0, 67, 6));
    assert_eq!(screen.log, Some(area(0, 0, 67, 2)));
    let console = screen.console.unwrap();
    assert_eq!(console.area, area(0, 2, 67, 2));
    assert_eq!(console.lines, vec!["two", "three"]);
    let status = screen.status.unwrap();
    assert_eq!(status.area, area(0, 4, 67, 1));
    assert_eq!(status.line, STATUS);
    assert_eq!(screen.input, Some(area(0, 5, 67, 1)));
}

#[test]
fn parts_without_rows_are_not_filled() {
    let state = state();
    let none = area(0, 0, 9, 0);
    let parts = Division { log: none, console: Some(none), status: none, input: none };
    let screen = Tui::new().fill(state.get_ref(), parts);
    assert!(screen.log.is_none() && screen.console.is_none());
    assert!(screen.status.is_none() && screen.input.is_none());
}
