//! The commands that a user types, and what is answered to them at once.

use vstd::prelude::*;
use vstd::utf8::encode_utf8;

use crate::bytes::copy_bytes;
use crate::clock::{instant_text, Timestamp};
use crate::text::{
    decimal, lowercase, lowercase_text, parse_u128, parsed_u128, push_decimal, same_text, views,
};

verus! {

broadcast use vstd::string::group_string_axioms;

/// Which events the log shows.
#[derive(Debug, Clone, Copy, PartialEq, Eq, Structural)]
pub enum LogLevel {
    Off,
    Error,
    Warn,
    Info,
    Debug,
    Trace,
}

/// The level with the given name in lower case.
pub open spec fn level_named(name: Seq<char>) -> Option<LogLevel> {
    if name == "off"@ {
        Some(LogLevel::Off)
    } else if name == "error"@ {
        Some(LogLevel::Error)
    } else if name == "warn"@ {
        Some(LogLevel::Warn)
    } else if name == "info"@ {
        Some(LogLevel::Info)
    } else if name == "debug"@ {
        Some(LogLevel::Debug)
    } else if name == "trace"@ {
        Some(LogLevel::Trace)
    } else {
        None
    }
}

/// The level with the given name in lower case.
pub fn find_level(name: &str) -> (level: Option<LogLevel>)
    ensures
        level == level_named(name@),
{
    if same_text(name, "off") {
        Some(LogLevel::Off)
    } else if same_text(name, "error") {
        Some(LogLevel::Error)
    } else if same_text(name, "warn") {
        Some(LogLevel::Warn)
    } else if same_text(name, "info") {
        Some(LogLevel::Info)
    } else if same_text(name, "debug") {
        Some(LogLevel::Debug)
    } else if same_text(name, "trace") {
        Some(LogLevel::Trace)
    } else {
        None
    }
}

/// What is to be done about a command.
#[derive(Debug)]
pub enum Command {
    /// Nothing more than what is answered at once.
    Nothing,
    /// Leave the program.
    Quit,
    /// Empty the console.
    Clear,
    SetLevel(LogLevel),
    /// Ping the node at a location.
    Ping(String),
    /// Search for the nodes near an identifier.
    LookupNode(u128),
    /// Search for the value under a key.
    Lookup(u128),
    /// Keep a value at this node alone.
    LocalStore(u128, Vec<u8>),
    /// Publish a value under a key of the user's choice.
    RawStore(u128, Vec<u8>),
    /// Publish a value under its own key.
    Publish(Vec<u8>),
    /// Show the routing table.
    PrintBuckets,
    /// Show the values that the node keeps.
    PrintStore,
}

/// The view of a `Command`.
pub enum CommandView {
    Nothing,
    Quit,
    Clear,
    SetLevel(LogLevel),
    Ping(Seq<char>),
    LookupNode(u128),
    Lookup(u128),
    LocalStore(u128, Seq<u8>),
    RawStore(u128, Seq<u8>),
    Publish(Seq<u8>),
    PrintBuckets,
    PrintStore,
}

impl View for Command {
    type V = CommandView;

    open spec fn view(&self) -> CommandView {
        match self {
            Command::Nothing => CommandView::Nothing,
            Command::Quit => CommandView::Quit,
            Command::Clear => CommandView::Clear,
            Command::SetLevel(level) => CommandView::SetLevel(*level),
            Command::Ping(location) => CommandView::Ping(location@),
            Command::LookupNode(key) => CommandView::LookupNode(*key),
            Command::Lookup(key) => CommandView::Lookup(*key),
            Command::LocalStore(key, value) => CommandView::LocalStore(*key, value@),
            Command::RawStore(key, value) => CommandView::RawStore(*key, value@),
            Command::Publish(value) => CommandView::Publish(value@),
            Command::PrintBuckets => CommandView::PrintBuckets,
            Command::PrintStore => CommandView::PrintStore,
        }
    }
}

/// What a node tells of itself.
#[derive(Debug, Clone, Copy)]
pub struct Profile {
    pub id: u128,
    pub port: u16,
    pub start_time: Timestamp,
}

/// The answer to a command: lines for the console, and what is to be done.
#[derive(Debug)]
pub struct Response {
    pub lines: Vec<String>,
    pub command: Command,
}

/// The view of a `Response`.
pub struct ResponseView {
    pub lines: Seq<Seq<char>>,
    pub command: CommandView,
}

impl View for Response {
    type V = ResponseView;

    open spec fn view(&self) -> ResponseView {
        ResponseView { lines: views(self.lines@), command: self.command@ }
    }
}

/// The answer that is one line and nothing to do.
pub open spec fn told(line: Seq<char>) -> ResponseView {
    ResponseView { lines: seq![line], command: CommandView::Nothing }
}

/// The answer that is something to do and no line.
pub open spec fn done(command: CommandView) -> ResponseView {
    ResponseView { lines: Seq::empty(), command }
}

/// The answer to `log_level`, where `level` is the level named.
pub open spec fn level_response(
    words: Seq<Seq<char>>,
    level: Option<LogLevel>,
) -> ResponseView {
    if words.len() != 2 {
        told("Usage: log_level off|error|warn|info|debug|trace"@)
    } else {
        match level {
            Some(level) => ResponseView {
                lines: seq!["Log level set to "@ + words[1]],
                command: CommandView::SetLevel(level),
            },
            None => told(
                "Unknown log level. Usage: log_level off|error|warn|info|debug|trace"@,
            ),
        }
    }
}

/// The answer to `ping`.
pub open spec fn ping_response(words: Seq<Seq<char>>) -> ResponseView {
    if words.len() != 2 {
        told("Wrong argument count. Usage: ping <location>"@)
    } else {
        done(CommandView::Ping(words[1]))
    }
}

/// The answer to `lookup_node`.
pub open spec fn lookup_node_response(words: Seq<Seq<char>>) -> ResponseView {
    if words.len() != 2 {
        told("Wrong argument count. Usage: lookup_node <id>"@)
    } else {
        match parsed_u128(words[1]) {
            Some(key) => done(CommandView::LookupNode(key)),
            None => told("Unparseable key"@),
        }
    }
}

/// The answer to `lookup`.
pub open spec fn lookup_response(words: Seq<Seq<char>>) -> ResponseView {
    if words.len() != 2 {
        told("Wrong argument count. Usage: lookup <key>"@)
    } else {
        match parsed_u128(words[1]) {
            Some(key) => done(CommandView::Lookup(key)),
            None => told("Unparseable key"@),
        }
    }
}

/// The answer to `local_store`.
pub open spec fn local_store_response(words: Seq<Seq<char>>) -> ResponseView {
    if words.len() != 3 {
        told("Wrong argument count. Usage: local_store <key> <value>"@)
    } else {
        match parsed_u128(words[1]) {
            Some(key) => done(CommandView::LocalStore(key, encode_utf8(words[2]))),
            None => told("Key not parsable"@),
        }
    }
}

/// The answer to `raw_store`.
pub open spec fn raw_store_response(words: Seq<Seq<char>>) -> ResponseView {
    if words.len() != 3 {
        told("Wrong argument count. Usage: raw_store <key> <value>"@)
    } else {
        match parsed_u128(words[1]) {
            Some(key) => done(CommandView::RawStore(key, encode_utf8(words[2]))),
            None => told("Key not parsable"@),
        }
    }
}

/// The answer to `store`.
pub open spec fn store_response(words: Seq<Seq<char>>) -> ResponseView {
    if words.len() != 2 {
        told("Wrong argument count. Usage: store <value>"@)
    } else {
        done(CommandView::Publish(encode_utf8(words[1])))
    }
}

/// The answer to `print`.
pub open spec fn print_response(words: Seq<Seq<char>>, own: Profile) -> ResponseView {
    if words.len() != 2 {
        told("Wrong argument count. Usage: print id|port|buckets|store|start_time"@)
    } else if words[1] == "id"@ {
        told("id: "@ + decimal(own.id as nat))
    } else if words[1] == "port"@ {
        told("port: "@ + decimal(own.port as nat))
    } else if words[1] == "buckets"@ {
        done(CommandView::PrintBuckets)
    } else if words[1] == "store"@ {
        done(CommandView::PrintStore)
    } else if words[1] == "start_time"@ {
        told("start_time: "@ + instant_text(own.start_time))
    } else {
        told("Unknown thing to print. Usage: print id|port|buckets|store|start_time"@)
    }
}

/// The answer to a command that is none.
pub open spec fn unknown_response(word: Seq<char>) -> ResponseView {
    ResponseView {
        lines: seq![
            "Unknown command: "@ + word,
            "Commands: quit, clear, log_level, ping, print, lookup, store, lookup_node, local_store, raw_store"@,
        ],
        command: CommandView::Nothing,
    }
}

/// The answer of a node to a command, given word by word. `level` is the log level that the
/// second word names, where there is one.
pub open spec fn response_to(
    words: Seq<Seq<char>>,
    level: Option<LogLevel>,
    own: Profile,
) -> ResponseView {
    if words.len() == 0 {
        done(CommandView::Nothing)
    } else if words[0] == "quit"@ || words[0] == "exit"@ {
        done(CommandView::Quit)
    } else if words[0] == "clear"@ {
        done(CommandView::Clear)
    } else if words[0] == "log_level"@ {
        level_response(words, level)
    } else if words[0] == "ping"@ {
        ping_response(words)
    } else if words[0] == "lookup_node"@ {
        lookup_node_response(words)
    } else if words[0] == "lookup"@ {
        lookup_response(words)
    } else if words[0] == "local_store"@ {
        local_store_response(words)
    } else if words[0] == "raw_store"@ {
        raw_store_response(words)
    } else if words[0] == "store"@ {
        store_response(words)
    } else if words[0] == "print"@ {
        print_response(words, own)
    } else {
        unknown_response(words[0])
    }
}

/// The log level that the second word of a command names.
pub open spec fn level_in(words: Seq<Seq<char>>) -> Option<LogLevel> {
    if words.len() == 2 {
        level_named(lowercase(words[1]))
    } else {
        None
    }
}

fn tell(line: String) -> (response: Response)
    ensures
        response@ == told(line@),
{
    let mut lines: Vec<String> = Vec::new();
    lines.push(line);
    assert(views(lines@) =~= seq![line@]);
    Response { lines, command: Command::Nothing }
}

fn order(command: Command) -> (response: Response)
    ensures
        response@ == done(command@),
{
    let lines: Vec<String> = Vec::new();
    assert(views(lines@) =~= Seq::<Seq<char>>::empty());
    Response { lines, command }
}

fn word_bytes(word: &String) -> (bytes: Vec<u8>)
    ensures
        bytes@ == encode_utf8(word@),
{
    copy_bytes(word.as_str().as_bytes())
}

fn answer_level(words: &Vec<String>, level: Option<LogLevel>) -> (response: Response)
    ensures
        response@ == level_response(views(words@), level),
{
    if words.len() != 2 {
        return tell("Usage: log_level off|error|warn|info|debug|trace".to_owned());
    }
    match level {
        Some(level) => {
            let mut line: String = "Log level set to ".to_owned();
            line.append(words[1].as_str());
            let mut response: Response = tell(line);
            response.command = Command::SetLevel(level);
            response
        },
        None => tell(
            "Unknown log level. Usage: log_level off|error|warn|info|debug|trace".to_owned(),
        ),
    }
}

fn answer_ping(words: &Vec<String>) -> (response: Response)
    ensures
        response@ == ping_response(views(words@)),
{
    if words.len() != 2 {
        return tell("Wrong argument count. Usage: ping <location>".to_owned());
    }
    order(Command::Ping(words[1].clone()))
}

fn answer_lookup_node(words: &Vec<String>) -> (response: Response)
    ensures
        response@ == lookup_node_response(views(words@)),
{
    if words.len() != 2 {
        return tell("Wrong argument count. Usage: lookup_node <id>".to_owned());
    }
    match parse_u128(words[1].as_str()) {
        Some(key) => order(Command::LookupNode(key)),
        None => tell("Unparseable key".to_owned()),
    }
}

fn answer_lookup(words: &Vec<String>) -> (response: Response)
    ensures
        response@ == lookup_response(views(words@)),
{
    if words.len() != 2 {
        return tell("Wrong argument count. Usage: lookup <key>".to_owned());
    }
    match parse_u128(words[1].as_str()) {
        Some(key) => order(Command::Lookup(key)),
        None => tell("Unparseable key".to_owned()),
    }
}

fn answer_local_store(words: &Vec<String>) -> (response: Response)
    ensures
        response@ == local_store_response(views(words@)),
{
    if words.len() != 3 {
        return tell("Wrong argument count. Usage: local_store <key> <value>".to_owned());
    }
    match parse_u128(words[1].as_str()) {
        Some(key) => order(Command::LocalStore(key, word_bytes(&words[2]))),
        None => tell("Key not parsable".to_owned()),
    }
}

fn answer_raw_store(words: &Vec<String>) -> (response: Response)
    ensures
        response@ == raw_store_response(views(words@)),
{
    if words.len() != 3 {
        return tell("Wrong argument count. Usage: raw_store <key> <value>".to_owned());
    }
    match parse_u128(words[1].as_str()) {
        Some(key) => order(Command::RawStore(key, word_bytes(&words[2]))),
        None => tell("Key not parsable".to_owned()),
    }
}

fn answer_store(words: &Vec<String>) -> (response: Response)
    ensures
        response@ == store_response(views(words@)),
{
    if words.len() != 2 {
        return tell("Wrong argument count. Usage: store <value>".to_owned());
    }
    order(Command::Publish(word_bytes(&words[1])))
}

fn answer_print(words: &Vec<String>, own: Profile) -> (response: Response)
    ensures
        response@ == print_response(views(words@), own),
{
    if words.len() != 2 {
        return tell(
            "Wrong argument count. Usage: print id|port|buckets|store|start_time".to_owned(),
        );
    }
    let thing: &str = words[1].as_str();
    if same_text(thing, "id") {
        let mut line: String = "id: ".to_owned();
        push_decimal(&mut line, own.id);
        tell(line)
    } else if same_text(thing, "port") {
        let mut line: String = "port: ".to_owned();
        push_decimal(&mut line, own.port as u128);
        tell(line)
    } else if same_text(thing, "buckets") {
        order(Command::PrintBuckets)
    } else if same_text(thing, "store") {
        order(Command::PrintStore)
    } else if same_text(thing, "start_time") {
        let mut line: String = "start_time: ".to_owned();
        line.append(own.start_time.to_string().as_str());
        tell(line)
    } else {
        tell("Unknown thing to print. Usage: print id|port|buckets|store|start_time".to_owned())
    }
}

fn answer_unknown(word: &String) -> (response: Response)
    ensures
        response@ == unknown_response(word@),
{
    let mut line: String = "Unknown command: ".to_owned();
    line.append(word.as_str());
    let mut lines: Vec<String> = Vec::new();
    lines.push(line);
    lines.push(
        "Commands: quit, clear, log_level, ping, print, lookup, store, lookup_node, local_store, raw_store".to_owned(),
    );
    assert(views(lines@) =~= unknown_response(word@).lines);
    Response { lines, command: Command::Nothing }
}

/// The answer to a command, given word by word. `level` is the log level that the second word
/// names, where there is one.
pub fn respond(words: &Vec<String>, level: Option<LogLevel>, own: Profile) -> (response: Response)
    ensures
        response@ == response_to(views(words@), level, own),
{
    if words.len() == 0 {
        return order(Command::Nothing);
    }
    let word: &str = words[0].as_str();
    if same_text(word, "quit") || same_text(word, "exit") {
        order(Command::Quit)
    } else if same_text(word, "clear") {
        order(Command::Clear)
    } else if same_text(word, "log_level") {
        answer_level(words, level)
    } else if same_text(word, "ping") {
        answer_ping(words)
    } else if same_text(word, "lookup_node") {
        answer_lookup_node(words)
    } else if same_text(word, "lookup") {
        answer_lookup(words)
    } else if same_text(word, "local_store") {
        answer_local_store(words)
    } else if same_text(word, "raw_store") {
        answer_raw_store(words)
    } else if same_text(word, "store") {
        answer_store(words)
    } else if same_text(word, "print") {
        answer_print(words, own)
    } else {
        answer_unknown(&words[0])
    }
}

/// The log level that the second word of a command names, in upper or lower case.
pub fn level_word(words: &Vec<String>) -> (level: Option<LogLevel>)
    ensures
        level == level_in(views(words@)),
{
    if words.len() == 2 {
        find_level(lowercase_text(words[1].as_str()).as_str())
    } else {
        None
    }
}

/// A command is what its first word says, whatever stands behind it; no word is no command, and a
/// word that is none is answered with itself and the words that are.
pub proof fn the_first_word_is_the_command(
    words: Seq<Seq<char>>,
    level: Option<LogLevel>,
    own: Profile,
)
    ensures
        ({
            let answer = response_to(words, level, own);
            let first = words[0];
            &&& words.len() == 0 ==> answer.command is Nothing && answer.lines.len() == 0
            &&& words.len() > 0 ==> {
                &&& first == "quit"@ || first == "exit"@ <==> answer.command is Quit
                &&& answer.command is Quit ==> answer.lines.len() == 0
                &&& answer.command is Clear ==> first == "clear"@ && answer.lines.len() == 0
                &&& answer.command is SetLevel ==> first == "log_level"@
                &&& answer.command is Ping ==> first == "ping"@
                &&& answer.command is LookupNode ==> first == "lookup_node"@
                &&& answer.command is Lookup ==> first == "lookup"@
                &&& answer.command is LocalStore ==> first == "local_store"@
                &&& answer.command is RawStore ==> first == "raw_store"@
                &&& answer.command is Publish ==> first == "store"@
                &&& answer.command is PrintBuckets ==> first == "print"@
                &&& answer.command is PrintStore ==> first == "print"@
                &&& first != "quit"@ && first != "exit"@ && first != "clear"@ && first
                    != "log_level"@ && first != "ping"@ && first != "lookup_node"@ && first
                    != "lookup"@ && first != "local_store"@ && first != "raw_store"@ && first
                    != "store"@ && first != "print"@ ==> answer.command is Nothing && answer.lines
                    == seq![
                    "Unknown command: "@ + first,
                    "Commands: quit, clear, log_level, ping, print, lookup, store, lookup_node, local_store, raw_store"@,
                ]
            }
        }),
{
}

/// Whether an answer says one thing and asks for nothing.
pub open spec fn says(answer: ResponseView, line: Seq<char>) -> bool {
    answer.command is Nothing && answer.lines == seq![line]
}

/// What each command asks for. A key is the number that its word spells, a value the bytes of its
/// word, a location the word itself; where the words are too few or too many, or a key is none,
/// nothing is done and one line says so.
pub proof fn commands_mean_what_they_say(
    words: Seq<Seq<char>>,
    level: Option<LogLevel>,
    own: Profile,
)
    requires
        words.len() > 0,
    ensures
        ({
            let answer = response_to(words, level, own);
            let n = words.len();
            let key = parsed_u128(words[1]);
            &&& words[0] == "ping"@ && n == 2 ==> answer.command == CommandView::Ping(words[1])
                && answer.lines.len() == 0
            &&& words[0] == "lookup_node"@ && n == 2 && key is Some ==> answer.command
                == CommandView::LookupNode(key->0) && answer.lines.len() == 0
            &&& words[0] == "lookup"@ && n == 2 && key is Some ==> answer.command
                == CommandView::Lookup(key->0) && answer.lines.len() == 0
            &&& words[0] == "local_store"@ && n == 3 && key is Some ==> answer.command
                == CommandView::LocalStore(key->0, encode_utf8(words[2])) && answer.lines.len() == 0
            &&& words[0] == "raw_store"@ && n == 3 && key is Some ==> answer.command
                == CommandView::RawStore(key->0, encode_utf8(words[2])) && answer.lines.len() == 0
            &&& words[0] == "store"@ && n == 2 ==> answer.command == CommandView::Publish(
                encode_utf8(words[1]),
            ) && answer.lines.len() == 0
            &&& words[0] == "clear"@ ==> answer.command is Clear
            &&& words[0] == "log_level"@ && n == 2 && level is Some ==> answer.command
                == CommandView::SetLevel(level->0) && answer.lines == seq![
                "Log level set to "@ + words[1],
            ]
            &&& words[0] == "log_level"@ && n != 2 ==> says(
                answer,
                "Usage: log_level off|error|warn|info|debug|trace"@,
            )
            &&& words[0] == "log_level"@ && n == 2 && level is None ==> says(
                answer,
                "Unknown log level. Usage: log_level off|error|warn|info|debug|trace"@,
            )
            &&& words[0] == "ping"@ && n != 2 ==> says(
                answer,
                "Wrong argument count. Usage: ping <location>"@,
            )
            &&& words[0] == "store"@ && n != 2 ==> says(
                answer,
                "Wrong argument count. Usage: store <value>"@,
            )
            &&& words[0] == "lookup_node"@ && n != 2 ==> says(
                answer,
                "Wrong argument count. Usage: lookup_node <id>"@,
            )
            &&& words[0] == "lookup"@ && n != 2 ==> says(
                answer,
                "Wrong argument count. Usage: lookup <key>"@,
            )
            &&& (words[0] == "lookup_node"@ || words[0] == "lookup"@) && n == 2 && key is None ==> says(
                answer,
                "Unparseable key"@,
            )
            &&& words[0] == "local_store"@ && n != 3 ==> says(
                answer,
                "Wrong argument count. Usage: local_store <key> <value>"@,
            )
            &&& words[0] == "raw_store"@ && n != 3 ==> says(
                answer,
                "Wrong argument count. Usage: raw_store <key> <value>"@,
            )
            &&& (words[0] == "local_store"@ || words[0] == "raw_store"@) && n == 3 && key is None
                ==> says(answer, "Key not parsable"@)
        }),
{
    lemma_command_words_differ();
}

/// What a node prints of itself.
pub proof fn a_node_prints_what_is_asked(
    words: Seq<Seq<char>>,
    level: Option<LogLevel>,
    own: Profile,
)
    requires
        words.len() > 0,
        words[0] == "print"@,
    ensures
        ({
            let answer = response_to(words, level, own);
            &&& words.len() != 2 ==> answer.command is Nothing && answer.lines == seq![
                "Wrong argument count. Usage: print id|port|buckets|store|start_time"@,
            ]
            &&& words.len() == 2 ==> {
                &&& words[1] == "id"@ ==> answer.command is Nothing && answer.lines == seq![
                    "id: "@ + decimal(own.id as nat),
                ]
                &&& words[1] == "port"@ ==> answer.command is Nothing && answer.lines == seq![
                    "port: "@ + decimal(own.port as nat),
                ]
                &&& words[1] == "buckets"@ ==> answer.command is PrintBuckets && answer.lines.len()
                    == 0
                &&& words[1] == "store"@ ==> answer.command is PrintStore && answer.lines.len() == 0
                &&& words[1] == "start_time"@ ==> answer.command is Nothing && answer.lines == seq![
                    "start_time: "@ + instant_text(own.start_time),
                ]
            }
        }),
{
    lemma_command_words_differ();
    lemma_print_words_differ();
}

proof fn lemma_print_words_differ()
    ensures
        "id"@ != "port"@,
        "id"@ != "buckets"@,
        "id"@ != "store"@,
        "id"@ != "start_time"@,
        "port"@ != "buckets"@,
        "port"@ != "store"@,
        "port"@ != "start_time"@,
        "buckets"@ != "store"@,
        "buckets"@ != "start_time"@,
        "store"@ != "start_time"@,
{
    reveal_strlit("id");
    reveal_strlit("port");
    reveal_strlit("buckets");
    reveal_strlit("store");
    reveal_strlit("start_time");
    assert("id"@.len() == 2 && "port"@.len() == 4 && "buckets"@.len() == 7 && "store"@.len() == 5
        && "start_time"@.len() == 10);
}

/// The commands are told apart by their words.
proof fn lemma_command_words_differ()
    ensures
        "quit"@ != "clear"@,
        "quit"@ != "log_level"@,
        "quit"@ != "ping"@,
        "quit"@ != "lookup_node"@,
        "quit"@ != "lookup"@,
        "quit"@ != "local_store"@,
        "quit"@ != "raw_store"@,
        "quit"@ != "store"@,
        "quit"@ != "print"@,
        "exit"@ != "clear"@,
        "exit"@ != "log_level"@,
        "exit"@ != "ping"@,
        "exit"@ != "lookup_node"@,
        "exit"@ != "lookup"@,
        "exit"@ != "local_store"@,
        "exit"@ != "raw_store"@,
        "exit"@ != "store"@,
        "exit"@ != "print"@,
        "clear"@ != "log_level"@,
        "clear"@ != "ping"@,
        "clear"@ != "lookup_node"@,
        "clear"@ != "lookup"@,
        "clear"@ != "local_store"@,
        "clear"@ != "raw_store"@,
        "clear"@ != "store"@,
        "clear"@ != "print"@,
        "log_level"@ != "ping"@,
        "log_level"@ != "lookup_node"@,
        "log_level"@ != "lookup"@,
        "log_level"@ != "local_store"@,
        "log_level"@ != "raw_store"@,
        "log_level"@ != "store"@,
        "log_level"@ != "print"@,
        "ping"@ != "lookup_node"@,
        "ping"@ != "lookup"@,
        "ping"@ != "local_store"@,
        "ping"@ != "raw_store"@,
        "ping"@ != "store"@,
        "ping"@ != "print"@,
        "lookup_node"@ != "lookup"@,
        "lookup_node"@ != "local_store"@,
        "lookup_node"@ != "raw_store"@,
        "lookup_node"@ != "store"@,
        "lookup_node"@ != "print"@,
        "lookup"@ != "local_store"@,
        "lookup"@ != "raw_store"@,
        "lookup"@ != "store"@,
        "lookup"@ != "print"@,
        "local_store"@ != "raw_store"@,
        "local_store"@ != "store"@,
        "local_store"@ != "print"@,
        "raw_store"@ != "store"@,
        "raw_store"@ != "print"@,
        "store"@ != "print"@,
{
    reveal_strlit("quit");
    reveal_strlit("exit");
    reveal_strlit("clear");
    reveal_strlit("log_level");
    reveal_strlit("ping");
    reveal_strlit("lookup_node");
    reveal_strlit("lookup");
    reveal_strlit("local_store");
    reveal_strlit("raw_store");
    reveal_strlit("store");
    reveal_strlit("print");
    assert("quit"@.len() == 4 && "exit"@.len() == 4 && "clear"@.len() == 5 && "log_level"@.len()
        == 9 && "ping"@.len() == 4 && "lookup_node"@.len() == 11 && "lookup"@.len() == 6
        && "local_store"@.len() == 11 && "raw_store"@.len() == 9 && "store"@.len() == 5
        && "print"@.len() == 5);
    assert("quit"@[0] == 'q' && "exit"@[0] == 'e' && "ping"@[0] == 'p');
    assert("clear"@[0] == 'c' && "store"@[0] == 's' && "print"@[0] == 'p');
    assert("log_level"@[0] == 'l' && "raw_store"@[0] == 'r');
    assert("lookup_node"@[2] == 'o' && "local_store"@[2] == 'c');
}

/// A log level goes by its name in lower case, and no other name is one.
pub proof fn levels_go_by_their_names(name: Seq<char>)
    ensures
        level_named("off"@) == Some(LogLevel::Off),
        level_named("error"@) == Some(LogLevel::Error),
        level_named("warn"@) == Some(LogLevel::Warn),
        level_named("info"@) == Some(LogLevel::Info),
        level_named("debug"@) == Some(LogLevel::Debug),
        level_named("trace"@) == Some(LogLevel::Trace),
        level_in(seq![name, name]) == level_named(lowercase(name)),
        level_in(seq![name]) is None,
        level_named(name) is Some ==> name == "off"@ || name == "error"@ || name == "warn"@ || name
            == "info"@ || name == "debug"@ || name == "trace"@,
{
    reveal_strlit("off");
    reveal_strlit("error");
    reveal_strlit("warn");
    reveal_strlit("info");
    reveal_strlit("debug");
    reveal_strlit("trace");
    assert("off"@.len() == 3 && "error"@.len() == 5 && "warn"@.len() == 4 && "info"@.len() == 4
        && "debug"@.len() == 5 && "trace"@.len() == 5);
    assert("error"@[0] == 'e' && "debug"@[0] == 'd' && "trace"@[0] == 't');
    assert("warn"@[0] == 'w' && "info"@[0] == 'i');
}

/// The view of an answer is all of it.
pub proof fn response_views_hold_all_fields(
    response: Response,
    level: LogLevel,
    text: String,
    key: u128,
    value: Vec<u8>,
)
    ensures
        response@.command == response.command@,
        response@.lines.len() == response.lines@.len(),
        forall|i: int| 0 <= i < response.lines@.len() ==> #[trigger] response@.lines[i]
            == response.lines@[i]@,
        Command::Nothing@ is Nothing,
        Command::Quit@ is Quit,
        Command::Clear@ is Clear,
        Command::SetLevel(level)@ == CommandView::SetLevel(level),
        Command::Ping(text)@ == CommandView::Ping(text@),
        Command::LookupNode(key)@ == CommandView::LookupNode(key),
        Command::Lookup(key)@ == CommandView::Lookup(key),
        Command::LocalStore(key, value)@ == CommandView::LocalStore(key, value@),
        Command::RawStore(key, value)@ == CommandView::RawStore(key, value@),
        Command::Publish(value)@ == CommandView::Publish(value@),
        Command::PrintBuckets@ is PrintBuckets,
        Command::PrintStore@ is PrintStore,
{
}

} // verus!
