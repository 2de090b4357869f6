use tokad::console::History;

fn filled(room: usize, count: usize) -> History {
    let mut history = History::new(room);
    for i in 0..count {
        history.push(format!("line {}", i));
    }
    history
}

#[test]
fn the_latest_lines_are_kept() {
    assert_eq!(filled(3, 2).newest(), vec!["line 1", "line 0"]);
    assert_eq!(filled(3, 3).newest(), vec!["line 2", "line 1", "line 0"]);
    assert_eq!(filled(3, 5).newest(), vec!["line 4", "line 3", "line 2"]);
}

#[test]
fn a_history_without_room_stays_empty() {
    assert!(filled(0, 3).newest().is_empty());
}

#[test]
fn a_cleared_history_keeps_its_room() {
    let mut history = filled(2, 5);
    history.clear();
    assert!(history.newest().is_empty());
    history.extend(vec!["a".to_string(), "b".to_string(), "c".to_string()]);
    assert_eq!(history.newest(), vec!["c", "b"]);
}

#[test]
fn the_tail_is_wrapped_and_cut() {
    let mut history = History::new(10);
    history.push("first".to_string());
    history.push("one two three".to_string());
    history.push("end".to_string());
    assert_eq!(history.tail(7, 10), vec!["first", "one two", "three", "end"]);
    assert_eq!(history.tail(7, 3), vec!["one two", "three", "end"]);
    assert_eq!(history.tail(7, 2), vec!["three", "end"]);
    assert!(history.tail(7, 0).is_empty());
    assert!(history.tail(0, 5).is_empty());
}
