use tokad::clock::Timestamp;
use tokad::command::{find_level, Command, LogLevel};
use tokad::data::{Node, Nodes, Store, StoreOrNodes};
use tokad::error::TokadError;
use tokad::tokad::State;
use tokad::tui::{
    error_text, found_text, key_text, nodes_text, KeyCode, KeyKind, Resolution, Tui, TuiAction,
    TuiEvent, TuiMode, CONSOLE_LINES,
};

fn node(id: u128) -> Node {
    Node { id, ip: "10.0.0.1".to_string(), port: 4000 }
}

fn state() -> State {
    State::new(7, 4000, Timestamp { nanos: 1_500_000_000 }, &vec![0; 32])
}

fn key(kind: KeyKind, code: KeyCode, control: bool) -> TuiEvent {
    TuiEvent::Key { kind, code, control }
}

/// What is done about a command, and the lines that it leaves on the console.
fn enter(line: &str) -> (Command, Vec<String>) {
    let state = state();
    let mut tui = Tui::new();
    let command = tui.enter(line.to_string(), state.get_ref());
    let mut lines = tui.console_history.newest();
    lines.reverse();
    (command, lines)
}

fn told(line: &str) -> Vec<String> {
    let (command, lines) = enter(line);
    assert!(matches!(command, Command::Nothing), "{:?}", command);
    assert_eq!(lines[0], format!("> {}", line));
    lines[1..].to_vec()
}

#[test]
fn the_interface_starts_split_and_undrawn() {
    let tui = Tui::new();
    assert_eq!(tui.mode, TuiMode::Split);
    assert!(tui.should_draw);
    assert_eq!(tui.last_captured_events, 0);
    assert!(tui.console_history.newest().is_empty());
}

#[test]
fn the_console_keeps_a_thousand_lines() {
    assert_eq!(CONSOLE_LINES, 1000);
    let mut tui = Tui::new();
    let lines: Vec<String> = (0..1001).map(|i| i.to_string()).collect();
    assert_eq!(tui.step(TuiEvent::Messages(Some(lines))), TuiAction::Nothing);
    let kept = tui.console_history.newest();
    assert_eq!(kept.len(), 1000);
    assert_eq!((kept[0].as_str(), kept[999].as_str()), ("1000", "1"));
}

#[test]
fn a_tick_draws_when_something_was_logged() {
    let mut tui = Tui::new();
    tui.drawn(5);
    assert!(!tui.should_draw);
    assert_eq!(tui.step(TuiEvent::Tick(5)), TuiAction::Nothing);
    assert!(!tui.should_draw);
    assert_eq!(tui.step(TuiEvent::Tick(6)), TuiAction::Nothing);
    assert!(tui.should_draw);
}

#[test]
fn the_end_of_messages_or_input_leaves() {
    assert_eq!(Tui::new().step(TuiEvent::Messages(None)), TuiAction::Exit);
    assert_eq!(Tui::new().step(TuiEvent::Ended), TuiAction::Exit);
    assert_eq!(Tui::new().step(TuiEvent::Other), TuiAction::Nothing);
}

#[test]
fn a_new_size_clears_the_terminal() {
    let mut tui = Tui::new();
    tui.drawn(0);
    assert_eq!(tui.step(TuiEvent::Resize), TuiAction::ClearTerminal);
    assert!(tui.should_draw);
}

#[test]
fn control_c_leaves() {
    let code = KeyCode::Char('c');
    assert_eq!(Tui::new().step(key(KeyKind::Press, code, true)), TuiAction::Exit);
    assert_eq!(Tui::new().step(key(KeyKind::Repeat, code, true)), TuiAction::Exit);
    assert_eq!(Tui::new().step(key(KeyKind::Release, code, true)), TuiAction::Nothing);
    assert_eq!(Tui::new().step(key(KeyKind::Press, code, false)), TuiAction::Edit);
    let other = KeyCode::Char('d');
    assert_eq!(Tui::new().step(key(KeyKind::Press, other, true)), TuiAction::Edit);
}

#[test]
fn two_tabs_bring_the_mode_back() {
    let mut tui = Tui::new();
    tui.drawn(0);
    assert_eq!(tui.step(key(KeyKind::Repeat, KeyCode::Tab, false)), TuiAction::Nothing);
    assert_eq!(tui.mode, TuiMode::Split);
    assert!(!tui.should_draw);
    assert_eq!(tui.step(key(KeyKind::Press, KeyCode::Tab, false)), TuiAction::Nothing);
    assert_eq!(tui.mode, TuiMode::FullLogs);
    assert!(tui.should_draw);
    tui.step(key(KeyKind::Press, KeyCode::Tab, false));
    assert_eq!(tui.mode, TuiMode::Split);
}

#[test]
fn enter_submits_when_pressed() {
    let mut tui = Tui::new();
    assert_eq!(tui.step(key(KeyKind::Press, KeyCode::Enter, false)), TuiAction::Submit);
    assert_eq!(tui.step(key(KeyKind::Repeat, KeyCode::Enter, false)), TuiAction::Nothing);
}

#[test]
fn other_keys_edit_the_line() {
    let mut tui = Tui::new();
    tui.drawn(0);
    assert_eq!(tui.step(key(KeyKind::Release, KeyCode::Other, false)), TuiAction::Nothing);
    assert!(!tui.should_draw);
    assert_eq!(tui.step(key(KeyKind::Repeat, KeyCode::Other, false)), TuiAction::Edit);
    assert!(tui.should_draw);
}

#[test]
fn an_empty_line_is_echoed() {
    assert!(told("").is_empty());
    assert!(told("   ").is_empty());
}

#[test]
fn quit_and_exit_leave() {
    assert!(matches!(enter("quit").0, Command::Quit));
    assert!(matches!(enter("  exit now").0, Command::Quit));
    let state = state();
    let mut tui = Tui::new();
    tui.drawn(0);
    tui.enter("quit".to_string(), state.get_ref());
    assert!(!tui.should_draw);
}

#[test]
fn clear_empties_the_console() {
    let state = state();
    let mut tui = Tui::new();
    tui.enter("something".to_string(), state.get_ref());
    tui.drawn(0);
    assert!(matches!(tui.enter("clear".to_string(), state.get_ref()), Command::Clear));
    assert!(tui.console_history.newest().is_empty());
    assert!(tui.should_draw);
}

#[test]
fn log_levels_are_set_in_any_case() {
    let usage = "Usage: log_level off|error|warn|info|debug|trace";
    assert_eq!(told("log_level"), vec![usage]);
    assert_eq!(told("log_level a b"), vec![usage]);
    assert_eq!(told("log_level loud"), vec![format!("Unknown log level. {}", usage)]);
    let (command, lines) = enter("log_level WARN");
    assert!(matches!(command, Command::SetLevel(LogLevel::Warn)));
    assert_eq!(lines[1], "Log level set to WARN");
    assert_eq!(find_level("off"), Some(LogLevel::Off));
    assert_eq!(find_level("error"), Some(LogLevel::Error));
    assert_eq!(find_level("info"), Some(LogLevel::Info));
    assert_eq!(find_level("debug"), Some(LogLevel::Debug));
    assert_eq!(find_level("trace"), Some(LogLevel::Trace));
    assert_eq!(find_level("TRACE"), None);
}

#[test]
fn pings_name_a_location() {
    assert_eq!(told("ping"), vec!["Wrong argument count. Usage: ping <location>"]);
    match enter("ping example:80") {
        (Command::Ping(location), lines) => {
            assert_eq!(location, "example:80");
            assert_eq!(lines.len(), 1);
        }
        (command, _) => panic!("{:?}", command),
    }
}

#[test]
fn a_resolved_location_is_pinged() {
    let mut tui = Tui::new();
    assert_eq!(tui.resolved(Resolution::Unparseable), None);
    assert_eq!(tui.resolved(Resolution::Nowhere), None);
    let found = Resolution::Found {
        ip: "::1".to_string(),
        port: 80,
        shown: "[::1]:80".to_string(),
    };
    assert_eq!(tui.resolved(found), Some(Node { id: 0, ip: "::1".to_string(), port: 80 }));
    assert_eq!(
        tui.console_history.newest(),
        vec!["Ping destination: [::1]:80", "Not resolvable", "Unparseable location"],
    );
}

#[test]
fn lookups_name_a_key() {
    assert_eq!(told("lookup_node"), vec!["Wrong argument count. Usage: lookup_node <id>"]);
    assert_eq!(told("lookup_node x"), vec!["Unparseable key"]);
    assert!(matches!(enter("lookup_node 12").0, Command::LookupNode(12)));
    assert_eq!(told("lookup 1 2"), vec!["Wrong argument count. Usage: lookup <key>"]);
    assert_eq!(told("lookup -1"), vec!["Unparseable key"]);
    assert!(matches!(enter("lookup 12").0, Command::Lookup(12)));
}

#[test]
fn values_are_stored() {
    assert_eq!(
        told("local_store 1"),
        vec!["Wrong argument count. Usage: local_store <key> <value>"],
    );
    assert_eq!(told("local_store k v"), vec!["Key not parsable"]);
    match enter("local_store 5 hé").0 {
        Command::LocalStore(key, value) => assert_eq!((key, value), (5, "hé".as_bytes().to_vec())),
        command => panic!("{:?}", command),
    }
    assert_eq!(
        told("raw_store 1 2 3"),
        vec!["Wrong argument count. Usage: raw_store <key> <value>"],
    );
    assert_eq!(told("raw_store k v"), vec!["Key not parsable"]);
    match enter("raw_store 5 v").0 {
        Command::RawStore(key, value) => assert_eq!((key, value), (5, b"v".to_vec())),
        command => panic!("{:?}", command),
    }
    assert_eq!(told("store"), vec!["Wrong argument count. Usage: store <value>"]);
    match enter("store value").0 {
        Command::Publish(value) => assert_eq!(value, b"value".to_vec()),
        command => panic!("{:?}", command),
    }
}

#[test]
fn a_node_prints_what_it_is() {
    let usage = "Usage: print id|port|buckets|store|start_time";
    assert_eq!(told("print"), vec![format!("Wrong argument count. {}", usage)]);
    assert_eq!(told("print all"), vec![format!("Unknown thing to print. {}", usage)]);
    assert_eq!(told("print id"), vec!["id: 7"]);
    assert_eq!(told("print port"), vec!["port: 4000"]);
    assert_eq!(
        told("print start_time"),
        vec!["start_time: SystemTime { tv_sec: 1, tv_nsec: 500000000 }"],
    );
    assert!(matches!(enter("print buckets").0, Command::PrintBuckets));
    assert!(matches!(enter("print store").0, Command::PrintStore));
}

#[test]
fn an_unknown_command_lists_the_known_ones() {
    assert_eq!(
        told("Quit"),
        vec![
            "Unknown command: Quit",
            "Commands: quit, clear, log_level, ping, print, lookup, store, lookup_node, \
             local_store, raw_store",
        ],
    );
}

#[test]
fn buckets_are_printed_where_there_are_nodes() {
    let mut state = state();
    assert!(state.print_buckets().is_empty());
    state.refresh(node(0x8000_0001));
    state.refresh(node(0x8000_0002));
    state.refresh(node(6));
    assert_eq!(
        state.print_buckets(),
        vec![
            "0: (2147483649 10.0.0.1 4000) (2147483650 10.0.0.1 4000)",
            "31: (6 10.0.0.1 4000)",
        ],
    );
}

#[test]
fn the_store_is_printed_in_some_order() {
    let mut state = state();
    assert!(state.print_store().is_empty());
    state.local_store(1, b"one".to_vec());
    state.local_store(2, vec![0xff]);
    let mut lines = state.print_store();
    lines.sort();
    assert_eq!(lines, vec!["1: one", "2: [255]"]);
}

#[test]
fn outcomes_are_shown() {
    assert_eq!(key_text(5), "Key: 5");
    assert_eq!(error_text(&TokadError::NodeOffline(5)), "Error: Node 5 is offline");
    let value = StoreOrNodes::Store(Store { key: 5, value: b"v".to_vec() });
    assert_eq!(found_text(&value), "5: v");
    let nodes = StoreOrNodes::Nodes(Nodes { nodes: vec![node(1), node(2)] });
    assert_eq!(found_text(&nodes), "(1 10.0.0.1 4000) (2 10.0.0.1 4000)");
    assert_eq!(nodes_text(&vec![]), "");
}
