//! The user interface of a node, apart from the terminal: what comes of keys, ticks and messages,
//! and what the console is told.

use vstd::prelude::*;

use crate::command::{level_in, level_word, respond, response_to, Command, LogLevel, Profile, Response};
use crate::console::{
    all_noted, last_of, latest_lines_are_kept, room_exists, History, HistoryView,
};
use crate::data::{node_views, Node, NodeView, StoreOrNodes, StoreOrNodesView, StoreView};
use crate::error::{tokad_error_text, TokadError};
use crate::keeping::store_keys;
use crate::text::{
    a_separator_stands_between_items, decimal, entry_line, entry_text, join_texts, joined, push_decimal, split_words, views,
    views_push, words,
};
use crate::tokad::{node_text, State, StateRef};

verus! {

broadcast use vstd::string::group_string_axioms;

/// How many lines the console keeps.
pub const CONSOLE_LINES: usize = 1000;

/// What the screen shows above the status line.
#[derive(Debug, Clone, Copy, PartialEq, Eq, Structural)]
pub enum TuiMode {
    /// The log alone.
    FullLogs,
    /// The log and the console.
    Split,
}

/// The user interface of a node.
#[derive(Debug)]
pub struct Tui {
    pub mode: TuiMode,
    pub console_history: History,
    /// Whether the screen shows less than there is to show.
    pub should_draw: bool,
    /// How many events had been logged when the screen was drawn.
    pub last_captured_events: usize,
}

/// The view of a `Tui`.
pub struct TuiView {
    pub mode: TuiMode,
    pub history: HistoryView,
    pub should_draw: bool,
    pub last_captured_events: usize,
}

impl View for Tui {
    type V = TuiView;

    open spec fn view(&self) -> TuiView {
        TuiView {
            mode: self.mode,
            history: self.console_history@,
            should_draw: self.should_draw,
            last_captured_events: self.last_captured_events,
        }
    }
}

// ---------------------------------------------------------------------------------------------
// Events
// ---------------------------------------------------------------------------------------------

/// What is done with a key.
#[derive(Debug, Clone, Copy, PartialEq, Eq, Structural)]
pub enum KeyKind {
    Press,
    Repeat,
    Release,
}

/// Which key it is.
#[derive(Debug, Clone, Copy, PartialEq, Eq, Structural)]
pub enum KeyCode {
    Tab,
    Enter,
    Char(char),
    Other,
}

/// What happens to the user interface.
#[derive(Debug)]
pub enum TuiEvent {
    /// Time has passed; so many events have been logged.
    Tick(usize),
    /// Lines have come for the console, or no more can come.
    Messages(Option<Vec<String>>),
    /// A key, and whether the control key and no other modifier is held.
    Key { kind: KeyKind, code: KeyCode, control: bool },
    /// The terminal has another size.
    Resize,
    /// Anything else that the terminal tells.
    Other,
    /// The terminal tells nothing more.
    Ended,
}

/// What is to be done about an event.
#[derive(Debug, Clone, Copy, PartialEq, Eq, Structural)]
pub enum TuiAction {
    Nothing,
    /// Leave the program.
    Exit,
    /// Take the line that was typed as a command.
    Submit,
    /// Let the line that is typed take the key.
    Edit,
    /// Clear the terminal.
    ClearTerminal,
}

/// The other mode.
pub open spec fn other_mode(mode: TuiMode) -> TuiMode {
    match mode {
        TuiMode::FullLogs => TuiMode::Split,
        TuiMode::Split => TuiMode::FullLogs,
    }
}

/// What comes of a key. Releases count for nothing; control and `c` leaves; the tab key changes
/// the mode and the enter key submits, both when pressed and not when repeated; all else goes to
/// the line that is typed.
pub open spec fn keyed(
    tui: TuiView,
    kind: KeyKind,
    code: KeyCode,
    control: bool,
) -> (TuiView, TuiAction) {
    if kind == KeyKind::Release {
        (tui, TuiAction::Nothing)
    } else if control && code == KeyCode::Char('c') {
        (tui, TuiAction::Exit)
    } else if code == KeyCode::Tab {
        if kind == KeyKind::Press {
            (
                TuiView { mode: other_mode(tui.mode), should_draw: true, ..tui },
                TuiAction::Nothing,
            )
        } else {
            (tui, TuiAction::Nothing)
        }
    } else if code == KeyCode::Enter {
        if kind == KeyKind::Press {
            (tui, TuiAction::Submit)
        } else {
            (tui, TuiAction::Nothing)
        }
    } else {
        (TuiView { should_draw: true, ..tui }, TuiAction::Edit)
    }
}

/// What comes of an event.
pub open spec fn stepped(tui: TuiView, event: TuiEvent) -> (TuiView, TuiAction) {
    match event {
        TuiEvent::Tick(captured) => (
            TuiView {
                should_draw: tui.should_draw || captured != tui.last_captured_events,
                ..tui
            },
            TuiAction::Nothing,
        ),
        TuiEvent::Messages(Some(lines)) => (
            TuiView { history: tui.history.and(views(lines@)), should_draw: true, ..tui },
            TuiAction::Nothing,
        ),
        TuiEvent::Messages(None) => (tui, TuiAction::Exit),
        TuiEvent::Key { kind, code, control } => keyed(tui, kind, code, control),
        TuiEvent::Resize => (TuiView { should_draw: true, ..tui }, TuiAction::ClearTerminal),
        TuiEvent::Other => (tui, TuiAction::Nothing),
        TuiEvent::Ended => (tui, TuiAction::Exit),
    }
}

impl Tui {
    /// The user interface at the start: both log and console are shown, and nothing is drawn yet.
    pub fn new() -> (tui: Tui)
        ensures
            tui.mode == TuiMode::Split,
            tui.console_history@.lines == Seq::<Seq<char>>::empty(),
            tui.console_history@.room == CONSOLE_LINES,
            tui.should_draw,
            tui.last_captured_events == 0,
    {
        assert(room_exists(CONSOLE_LINES)) by {
            let word: int = usize::BITS as int / 8;
            assert(1000 * 3 * word <= 24000) by (nonlinear_arith)
                requires
                    word <= 8,
            ;
        }
        Tui {
            mode: TuiMode::Split,
            console_history: History::new(CONSOLE_LINES),
            should_draw: true,
            last_captured_events: 0,
        }
    }

    /// Notes that the screen was drawn when so many events had been logged.
    pub fn drawn(&mut self, captured: usize)
        ensures
            final(self)@ == (TuiView {
                should_draw: false,
                last_captured_events: captured,
                ..old(self)@
            }),
    {
        self.last_captured_events = captured;
        self.should_draw = false;
    }

    /// Takes an event, and says what is to be done about it.
    pub fn step(&mut self, event: TuiEvent) -> (action: TuiAction)
        ensures
            final(self)@ == stepped(old(self)@, event).0,
            action == stepped(old(self)@, event).1,
            old(self).console_history@.wf() ==> final(self).console_history@.wf(),
    {
        match event {
            TuiEvent::Tick(captured) => {
                if captured != self.last_captured_events {
                    self.should_draw = true;
                }
                TuiAction::Nothing
            },
            TuiEvent::Messages(Some(lines)) => {
                self.console_history.extend(lines);
                self.should_draw = true;
                TuiAction::Nothing
            },
            TuiEvent::Messages(None) => TuiAction::Exit,
            TuiEvent::Key { kind, code, control } => self.on_key(kind, code, control),
            TuiEvent::Resize => {
                self.should_draw = true;
                TuiAction::ClearTerminal
            },
            TuiEvent::Other => TuiAction::Nothing,
            TuiEvent::Ended => TuiAction::Exit,
        }
    }

    fn on_key(&mut self, kind: KeyKind, code: KeyCode, control: bool) -> (action: TuiAction)
        ensures
            final(self)@ == keyed(old(self)@, kind, code, control).0,
            action == keyed(old(self)@, kind, code, control).1,
            final(self).console_history == old(self).console_history,
    {
        if kind == KeyKind::Release {
            return TuiAction::Nothing;
        }
        if control && code == KeyCode::Char('c') {
            return TuiAction::Exit;
        }
        if code == KeyCode::Tab {
            if kind == KeyKind::Press {
                self.mode = match self.mode {
                    TuiMode::FullLogs => TuiMode::Split,
                    TuiMode::Split => TuiMode::FullLogs,
                };
                self.should_draw = true;
            }
            return TuiAction::Nothing;
        }
        if code == KeyCode::Enter {
            if kind == KeyKind::Press {
                return TuiAction::Submit;
            }
            return TuiAction::Nothing;
        }
        self.should_draw = true;
        TuiAction::Edit
    }
}

/// The tab key, pressed twice, brings the mode back.
pub proof fn two_tabs_bring_the_mode_back(tui: TuiView, control: bool)
    ensures
        ({
            let once = keyed(tui, KeyKind::Press, KeyCode::Tab, control).0;
            let twice = keyed(once, KeyKind::Press, KeyCode::Tab, control).0;
            twice.mode == tui.mode && once.mode != tui.mode && twice.history == tui.history
        }),
{
}

// ---------------------------------------------------------------------------------------------
// Commands
// ---------------------------------------------------------------------------------------------

/// What a node tells of itself.
pub open spec fn profile_of(state: State) -> Profile {
    Profile { id: state.id, port: state.port, start_time: state.start_time }
}

/// The user interface after the command `line` has been typed, when `level` is the log level that
/// the second word of it names: the line is echoed and the answer shown. `clear` leaves the
/// console empty, and a command that leaves the program is not drawn.
pub open spec fn entered(
    tui: TuiView,
    line: Seq<char>,
    level: Option<LogLevel>,
    own: Profile,
) -> TuiView {
    let response = response_to(words(line), level, own);
    let echoed = tui.history.and(seq!["> "@ + line]);
    TuiView {
        history: if response.command is Clear {
            HistoryView { lines: Seq::empty(), ..echoed }
        } else {
            echoed.and(response.lines)
        },
        should_draw: tui.should_draw || !(response.command is Quit),
        ..tui
    }
}

/// What came of looking a location up.
#[derive(Debug)]
pub enum Resolution {
    /// It is no location.
    Unparseable,
    /// It is one, but nothing is there.
    Nowhere,
    /// An address and a port, and how they are shown.
    Found { ip: String, port: u16, shown: String },
}

/// What the console is told of a resolution.
pub open spec fn resolution_line(resolution: Resolution) -> Seq<char> {
    match resolution {
        Resolution::Unparseable => "Unparseable location"@,
        Resolution::Nowhere => "Not resolvable"@,
        Resolution::Found { shown, .. } => "Ping destination: "@ + shown@,
    }
}

impl Tui {
    /// Takes a command, and says what is to be done about it.
    pub fn enter(&mut self, line: String, server: StateRef<'_>) -> (command: Command)
        ensures
            final(self)@ == entered(
                old(self)@,
                line@,
                level_in(words(line@)),
                profile_of(*server.state),
            ),
            command@ == response_to(
                words(line@),
                level_in(words(line@)),
                profile_of(*server.state),
            ).command,
            old(self).console_history@.wf() ==> final(self).console_history@.wf(),
    {
        let list: Vec<String> = split_words(line.as_str());
        let level: Option<LogLevel> = level_word(&list);
        self.enter_words(line, list, level, server)
    }

    /// Takes a command with its words, when `level` is the log level that the second one names.
    pub fn enter_words(
        &mut self,
        line: String,
        list: Vec<String>,
        level: Option<LogLevel>,
        server: StateRef<'_>,
    ) -> (command: Command)
        requires
            views(list@) == words(line@),
        ensures
            final(self)@ == entered(old(self)@, line@, level, profile_of(*server.state)),
            command@ == response_to(words(line@), level, profile_of(*server.state)).command,
            old(self).console_history@.wf() ==> final(self).console_history@.wf(),
    {
        let mut echo: String = "> ".to_owned();
        echo.append(line.as_str());
        self.console_history.push(echo);
        let own: Profile = Profile {
            id: server.state.id,
            port: server.state.port,
            start_time: server.state.start_time,
        };
        let response: Response = respond(&list, level, own);
        match &response.command {
            Command::Clear => {
                self.console_history.clear();
                self.should_draw = true;
            },
            Command::Quit => {
                self.console_history.extend(response.lines);
            },
            _ => {
                self.console_history.extend(response.lines);
                self.should_draw = true;
            },
        }
        response.command
    }

    /// Tells the console what came of looking up the location of a ping, and gives the node to
    /// ping.
    pub fn resolved(&mut self, resolution: Resolution) -> (node: Option<Node>)
        ensures
            final(self)@ == (TuiView {
                history: old(self)@.history.and(seq![resolution_line(resolution)]),
                ..old(self)@
            }),
            match resolution {
                Resolution::Found { ip, port, .. } => node == Some(
                    Node { id: 0, ip, port: port as u32 },
                ),
                _ => node is None,
            },
            old(self).console_history@.wf() ==> final(self).console_history@.wf(),
    {
        match resolution {
            Resolution::Unparseable => {
                self.console_history.push("Unparseable location".to_owned());
                None
            },
            Resolution::Nowhere => {
                self.console_history.push("Not resolvable".to_owned());
                None
            },
            Resolution::Found { ip, port, shown } => {
                let mut line: String = "Ping destination: ".to_owned();
                line.append(shown.as_str());
                self.console_history.push(line);
                Some(Node::from_sock(0, ip, port))
            },
        }
    }
}

// ---------------------------------------------------------------------------------------------
// Lines
// ---------------------------------------------------------------------------------------------

/// The texts of a list of nodes.
pub open spec fn node_texts(nodes: Seq<NodeView>) -> Seq<Seq<char>> {
    nodes.map_values(|n: NodeView| node_text(n))
}

/// A list of nodes in one line.
pub open spec fn nodes_line(nodes: Seq<NodeView>) -> Seq<char> {
    joined(node_texts(nodes), " "@)
}

/// A list of nodes in one line.
pub fn nodes_text(nodes: &Vec<Node>) -> (s: String)
    ensures
        s@ == nodes_line(node_views(nodes@)),
{
    let mut list: Vec<String> = Vec::new();
    let mut i: usize = 0;
    let ghost all = node_texts(node_views(nodes@));
    assert(views(list@) =~= all.take(0));
    while i < nodes.len()
        invariant
            i <= nodes@.len(),
            all == node_texts(node_views(nodes@)),
            views(list@) == all.take(i as int),
        decreases nodes@.len() - i,
    {
        let text: String = nodes[i].to_string();
        proof {
            views_push(list@, text);
        }
        list.push(text);
        i = i + 1;
        assert(views(list@) =~= all.take(i as int));
    }
    assert(all.take(nodes@.len() as int) =~= all);
    join_texts(&list, " ")
}

/// What the console is told of the outcome of a search for a value.
pub open spec fn found_line(found: StoreOrNodesView) -> Seq<char> {
    match found {
        StoreOrNodesView::Store(store) => entry_line(store.key, store.value),
        StoreOrNodesView::Nodes(nodes) => nodes_line(nodes),
    }
}

/// What the console is told of the outcome of a search for a value.
pub fn found_text(found: &StoreOrNodes) -> (s: String)
    ensures
        s@ == found_line(found@),
{
    match found {
        StoreOrNodes::Store(store) => store.to_string(),
        StoreOrNodes::Nodes(nodes) => nodes_text(&nodes.nodes),
    }
}

/// What the console is told of an error.
pub fn error_text(e: &TokadError) -> (s: String)
    ensures
        s@ == "Error: "@ + tokad_error_text(e@),
{
    let mut s: String = "Error: ".to_owned();
    s.append(e.to_string().as_str());
    s
}

/// What the console is told of the key under which a value was published.
pub fn key_text(key: u128) -> (s: String)
    ensures
        s@ == "Key: "@ + decimal(key as nat),
{
    let mut s: String = "Key: ".to_owned();
    push_decimal(&mut s, key);
    s
}

/// The lines that show a routing table: one for each of the first `n` buckets in which there are
/// nodes.
pub open spec fn bucket_lines(table: Seq<Seq<Node>>, n: nat) -> Seq<Seq<char>>
    decreases n,
{
    if n == 0 {
        Seq::empty()
    } else {
        let before = bucket_lines(table, (n - 1) as nat);
        if table[n - 1].len() == 0 {
            before
        } else {
            before.push(decimal((n - 1) as nat) + ": "@ + nodes_line(node_views(table[n - 1])))
        }
    }
}

impl State {
    /// The lines that show the routing table.
    pub fn print_buckets(&self) -> (lines: Vec<String>)
        ensures
            views(lines@) == bucket_lines(self.table(), self.table().len()),
    {
        let mut lines: Vec<String> = Vec::new();
        let mut b: usize = 0;
        assert(views(lines@) =~= Seq::<Seq<char>>::empty());
        while b < self.buckets.len()
            invariant
                b <= self.buckets@.len(),
                views(lines@) == bucket_lines(self.table(), b as nat),
            decreases self.buckets@.len() - b,
        {
            if self.buckets[b].len() > 0 {
                let mut line: String = String::new();
                push_decimal(&mut line, b as u128);
                line.append(": ");
                line.append(nodes_text(&self.buckets[b]).as_str());
                assert(line@ =~= decimal(b as nat) + ": "@ + nodes_line(
                    node_views(self.table()[b as int]),
                ));
                proof {
                    views_push(lines@, line);
                }
                lines.push(line);
            }
            b = b + 1;
        }
        lines
    }

    /// The lines that show the values that the node keeps: one for each, in no particular order.
    pub fn print_store(&self) -> (lines: Vec<String>)
        ensures
            exists|keys: Seq<u128>| #[trigger]
                keys.to_set() == self.contents().dom() && keys.no_duplicates() && views(lines@)
                    == keys.map_values(|key: u128| entry_line(key, self.contents()[key].data)),
    {
        let keys: Vec<u128> = store_keys(&self.store);
        let ghost all = keys@.map_values(
            |key: u128| entry_line(key, self.contents()[key].data),
        );
        let mut lines: Vec<String> = Vec::new();
        let mut i: usize = 0;
        assert(views(lines@) =~= all.take(0));
        while i < keys.len()
            invariant
                i <= keys@.len(),
                keys@.to_set() == self.store@.dom(),
                all == keys@.map_values(|key: u128| entry_line(key, self.contents()[key].data)),
                views(lines@) == all.take(i as int),
            decreases keys@.len() - i,
        {
            let key: u128 = keys[i];
            assert(keys@.contains(key));
            assert(keys@.to_set().contains(key));
            match self.store.get(&key) {
                Some(entry) => {
                    let line: String = entry_text(key, entry.data.as_slice());
                    proof {
                        views_push(lines@, line);
                    }
                    lines.push(line);
                },
                None => {},
            }
            i = i + 1;
            assert(views(lines@) =~= all.take(i as int));
        }
        proof {
            assert(views(lines@) =~= all);
            assert(self.contents().dom() =~= self.store@.dom());
            assert(keys@.to_set() == self.contents().dom());
        }
        lines
    }
}

// ---------------------------------------------------------------------------------------------
// What the user interface does
// ---------------------------------------------------------------------------------------------

/// What a key does. A release does nothing. Control and `c` leaves. The tab key changes the mode
/// and draws, and the enter key submits, when they are pressed; held down, they do nothing. Every
/// other key goes to the line that is typed, and is drawn. No key touches the console.
pub proof fn keys_do_what_they_are_for(
    tui: TuiView,
    kind: KeyKind,
    code: KeyCode,
    control: bool,
)
    ensures
        ({
            let (next, action) = keyed(tui, kind, code, control);
            let leaves = control && code == KeyCode::Char('c');
            let tab = code == KeyCode::Tab;
            let enter = code == KeyCode::Enter;
            &&& next.history == tui.history
            &&& next.last_captured_events == tui.last_captured_events
            &&& tui.should_draw ==> next.should_draw
            &&& kind == KeyKind::Release ==> next == tui && action == TuiAction::Nothing
            &&& kind != KeyKind::Release ==> {
                &&& leaves <==> action == TuiAction::Exit
                &&& leaves ==> next == tui
                &&& tab ==> action == TuiAction::Nothing
                &&& enter && kind == KeyKind::Press ==> action == TuiAction::Submit && next == tui
                &&& enter && kind == KeyKind::Repeat ==> action == TuiAction::Nothing && next == tui
                &&& !leaves && !tab && !enter <==> action == TuiAction::Edit
                &&& !leaves && !tab && !enter ==> next.should_draw
            }
            &&& next.mode != tui.mode <==> tab && kind == KeyKind::Press
            &&& next.mode != tui.mode ==> next.should_draw
        }),
{
}

/// What other events do. A tick draws where more or fewer events have been logged than when the
/// screen was drawn. Lines that come are added to the console and drawn. The end of the lines or
/// of the input leaves, another size clears the terminal and draws, and the rest does nothing.
pub proof fn events_do_what_they_are_for(tui: TuiView, captured: usize, lines: Vec<String>)
    ensures
        ({
            let (next, action) = stepped(tui, TuiEvent::Tick(captured));
            &&& action == TuiAction::Nothing
            &&& next.should_draw <==> tui.should_draw || captured != tui.last_captured_events
            &&& next.history == tui.history && next.mode == tui.mode
            &&& next.last_captured_events == tui.last_captured_events
        }),
        ({
            let (next, action) = stepped(tui, TuiEvent::Messages(Some(lines)));
            &&& action == TuiAction::Nothing
            &&& next.should_draw
            &&& next.mode == tui.mode && next.last_captured_events == tui.last_captured_events
            &&& next.history.room == tui.history.room
            &&& tui.history.lines.len() <= tui.history.room ==> next.history.lines == last_of(
                tui.history.lines + views(lines@),
                tui.history.room,
            )
        }),
        stepped(tui, TuiEvent::Messages(None)) == (tui, TuiAction::Exit),
        stepped(tui, TuiEvent::Ended) == (tui, TuiAction::Exit),
        stepped(tui, TuiEvent::Other) == (tui, TuiAction::Nothing),
        stepped(tui, TuiEvent::Resize).1 == TuiAction::ClearTerminal,
        stepped(tui, TuiEvent::Resize).0.should_draw,
        stepped(tui, TuiEvent::Resize).0.history == tui.history,
        stepped(tui, TuiEvent::Resize).0.mode == tui.mode,
        stepped(tui, TuiEvent::Resize).0.last_captured_events == tui.last_captured_events,
{
    if tui.history.lines.len() <= tui.history.room {
        latest_lines_are_kept(tui.history.lines, tui.history.room, views(lines@));
    }
}

/// What a command leaves on the console: the line as it was typed, behind a mark, and below it what
/// is answered, behind all that was there, as far as there is room; but nothing where the console
/// is to be cleared. All is drawn unless the program is left, and nothing else changes.
pub proof fn a_command_is_echoed_and_answered(
    tui: TuiView,
    line: Seq<char>,
    level: Option<LogLevel>,
    own: Profile,
)
    requires
        tui.history.wf(),
    ensures
        ({
            let answer = response_to(words(line), level, own);
            let next = entered(tui, line, level, own);
            &&& next.mode == tui.mode
            &&& next.last_captured_events == tui.last_captured_events
            &&& next.history.room == tui.history.room
            &&& answer.command is Clear ==> next.history.lines.len() == 0
            &&& !(answer.command is Clear) ==> next.history.lines == last_of(
                tui.history.lines + seq!["> "@ + line] + answer.lines,
                tui.history.room,
            )
            &&& next.should_draw <==> tui.should_draw || !(answer.command is Quit)
        }),
{
    let answer = response_to(words(line), level, own);
    let echo = seq!["> "@ + line];
    let lines = tui.history.lines;
    let room = tui.history.room;
    latest_lines_are_kept(lines, room, echo);
    let echoed = all_noted(lines, room, echo);
    latest_lines_are_kept(echoed, room, answer.lines);
    let whole = lines + echo + answer.lines;
    let cut = last_of(lines + echo, room) + answer.lines;
    assert(last_of(cut, room) =~= last_of(whole, room));
}

/// What the console is told: of a location that is looked up, where it leads or that it does not;
/// of a search, the value behind its key or the nodes that it ends with, each as it is.
pub proof fn outcomes_are_told(
    ip: String,
    port: u16,
    shown: String,
    key: u128,
    value: Seq<u8>,
    nodes: Seq<NodeView>,
    node: NodeView,
)
    ensures
        resolution_line(Resolution::Unparseable) == "Unparseable location"@,
        resolution_line(Resolution::Nowhere) == "Not resolvable"@,
        resolution_line(Resolution::Found { ip, port, shown }) == "Ping destination: "@ + shown@,
        found_line(StoreOrNodesView::Store(StoreView { key, value })) == entry_line(key, value),
        found_line(StoreOrNodesView::Nodes(nodes)) == nodes_line(nodes),
        nodes_line(Seq::<NodeView>::empty()) == Seq::<char>::empty(),
        nodes_line(seq![node]) == node_text(node),
        nodes.len() > 0 ==> nodes_line(nodes.push(node)) == nodes_line(nodes) + " "@ + node_text(
            node,
        ),
{
    assert(node_texts(Seq::<NodeView>::empty()) =~= Seq::<Seq<char>>::empty());
    assert(node_texts(seq![node]) =~= seq![node_text(node)]);
    assert(node_texts(nodes.push(node)) =~= node_texts(nodes).push(node_text(node)));
    a_separator_stands_between_items(node_texts(nodes), node_text(node), " "@);
}

/// A routing table is shown bucket by bucket: a line for each bucket that holds nodes, behind its
/// number, and none for an empty one.
pub proof fn a_table_is_shown_bucket_by_bucket(table: Seq<Seq<Node>>, n: nat)
    requires
        n < table.len(),
    ensures
        bucket_lines(table, 0).len() == 0,
        table[n as int].len() == 0 ==> bucket_lines(table, n + 1) == bucket_lines(table, n),
        table[n as int].len() > 0 ==> bucket_lines(table, n + 1) == bucket_lines(table, n) + seq![
            decimal(n) + ": "@ + nodes_line(node_views(table[n as int])),
        ],
{
    if table[n as int].len() > 0 {
        assert(bucket_lines(table, n + 1) =~= bucket_lines(table, n) + seq![
            decimal(n) + ": "@ + nodes_line(node_views(table[n as int])),
        ]);
    }
}

/// The view of the user interface is all of it, and it knows the node in front of which it stands.
pub proof fn tui_views_hold_all_fields(tui: Tui, state: State)
    ensures
        tui@.mode == tui.mode,
        tui@.history == tui.console_history@,
        tui@.should_draw == tui.should_draw,
        tui@.last_captured_events == tui.last_captured_events,
        profile_of(state).id == state.id,
        profile_of(state).port == state.port,
        profile_of(state).start_time == state.start_time,
{
}

} // verus!
