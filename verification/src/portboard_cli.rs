//! The command line: what its arguments ask for, and what it prints.
use vstd::prelude::*;
use vstd::string::*;

use crate::browser_url::{hyperlink_text, osc8_hyperlink, parsed_url, UrlOpenOutcome};
use crate::current_workspace_status::{
    status_texts, CurrentLaunchTargetStatus, LaunchTargetRuntimeState, StateText, StatusText,
    WorktreeLaunchTargetInspection,
};
use crate::herdr_workspace::{no_texts, push_text};
use crate::launch_target_config::LaunchTarget;
use crate::launch_target_ensure::{EnsureLaunchTargetOutcome, EnsureLaunchTargetResult};
use crate::launch_target_processes::{run_texts, LaunchTargetProcess, RunText};
use crate::lossy_text::{lossy, lossy_text};
use crate::numbers::{decimal, decimal_text, number_value, push_decimal};
use crate::ordered::{lemma_all_seen, lemma_seen};
use crate::path_text::{below, lies_below};
use crate::portboard_error::{failure, refusal, ErrorText, PortboardError};
use crate::process_endpoints::{
    endpoint_texts, pids_of_runs, run_pids, EndpointText, ProcessEndpoint,
};
use crate::runtime_metadata::{
    endpoints_are_found_by_name, find_named, first_named, first_primary, load_text, named_texts,
    the_first_primary_counts, LaunchTargetRuntimeMetadata, MetadataText, NamedText,
    RuntimeEndpoint,
};
use crate::text::{
    after_prefix, contains_control, has_control, join, joined, optional_text, pad_to, padded,
    padding_adds_spaces, prefixes_are_taken_off, same_text, shorten_to, shortened, starts_with,
    texts,
};
use crate::worktree_processes::{inventory_texts, InventoryText, WorktreeProcessInventoryEntry};

verus! {

/// A command that takes options.
#[derive(Clone, Copy, Debug, PartialEq, Eq, Structural)]
pub enum CommandName {
    Status,
    Ps,
    Open,
    Ensure,
    Url,
    Logs,
    Stop,
    Serve,
}

/// What an argument of a command is.
#[derive(Clone, Copy, Debug, PartialEq, Eq, Structural)]
pub enum ArgumentRole {
    Json,
    Herdr,
    Wait,
    OpenUrl,
    Follow,
    /// The next argument is a number of lines.
    Lines,
    /// The next argument is a directory.
    Cwd,
    /// The next argument is an address.
    Bind,
    /// The name of a target or of an endpoint.
    Word,
}

/// A command as it is written.
pub open spec fn command_word(command: CommandName) -> Seq<char> {
    match command {
        CommandName::Status => "status"@,
        CommandName::Ps => "ps"@,
        CommandName::Open => "open"@,
        CommandName::Ensure => "ensure"@,
        CommandName::Url => "url"@,
        CommandName::Logs => "logs"@,
        CommandName::Stop => "stop"@,
        CommandName::Serve => "serve"@,
    }
}

fn word_of(command: CommandName) -> (result: &'static str)
    ensures
        result@ == command_word(command),
{
    match command {
        CommandName::Status => "status",
        CommandName::Ps => "ps",
        CommandName::Open => "open",
        CommandName::Ensure => "ensure",
        CommandName::Url => "url",
        CommandName::Logs => "logs",
        CommandName::Stop => "stop",
        CommandName::Serve => "serve",
    }
}

/// What an argument is to a command.
pub open spec fn role(command: CommandName, argument: Seq<char>) -> ArgumentRole {
    if argument == "--cwd"@ {
        ArgumentRole::Cwd
    } else if argument == "--json"@ && (command == CommandName::Status || command
        == CommandName::Ps) {
        ArgumentRole::Json
    } else if argument == "--herdr"@ && command == CommandName::Ensure {
        ArgumentRole::Herdr
    } else if argument == "--wait"@ && command == CommandName::Ensure {
        ArgumentRole::Wait
    } else if argument == "--open"@ && command == CommandName::Url {
        ArgumentRole::OpenUrl
    } else if (argument == "--follow"@ || argument == "-f"@) && command == CommandName::Logs {
        ArgumentRole::Follow
    } else if (argument == "--lines"@ || argument == "-n"@) && command == CommandName::Logs {
        ArgumentRole::Lines
    } else if argument == "--bind"@ && command == CommandName::Serve {
        ArgumentRole::Bind
    } else {
        ArgumentRole::Word
    }
}

fn role_of(command: CommandName, argument: &str) -> (result: ArgumentRole)
    ensures
        result == role(command, argument@),
{
    if same_text(argument, "--cwd") {
        ArgumentRole::Cwd
    } else if same_text(argument, "--json") && (command == CommandName::Status || command
        == CommandName::Ps) {
        ArgumentRole::Json
    } else if same_text(argument, "--herdr") && command == CommandName::Ensure {
        ArgumentRole::Herdr
    } else if same_text(argument, "--wait") && command == CommandName::Ensure {
        ArgumentRole::Wait
    } else if same_text(argument, "--open") && command == CommandName::Url {
        ArgumentRole::OpenUrl
    } else if (same_text(argument, "--follow") || same_text(argument, "-f")) && command
        == CommandName::Logs {
        ArgumentRole::Follow
    } else if (same_text(argument, "--lines") || same_text(argument, "-n")) && command
        == CommandName::Logs {
        ArgumentRole::Lines
    } else if same_text(argument, "--bind") && command == CommandName::Serve {
        ArgumentRole::Bind
    } else {
        ArgumentRole::Word
    }
}

/// Whether a command takes one more word after `words` of them while its arguments are read.
pub open spec fn takes_word(command: CommandName, words: nat) -> bool {
    match command {
        CommandName::Status | CommandName::Ps | CommandName::Serve => false,
        CommandName::Open | CommandName::Ensure | CommandName::Logs | CommandName::Stop => words
            == 0,
        CommandName::Url => true,
    }
}

/// Why a command does not take an argument.
pub open spec fn unwanted_argument(command: CommandName, argument: Seq<char>) -> ErrorText {
    match command {
        CommandName::Status | CommandName::Ps | CommandName::Serve => failure(
            "Portboard "@ + command_word(command) + " option `"@ + argument + "` is unknown"@,
        ),
        _ => failure(
            "Portboard "@ + command_word(command) + " argument `"@ + argument + "` is unexpected"@,
        ),
    }
}

/// Why an option fails that has no value behind it.
pub open spec fn missing_value(command: CommandName, option: Seq<char>, value: Seq<char>) -> Seq<
    char,
> {
    "Portboard "@ + command_word(command) + " "@ + option + " needs "@ + value
}

/// What was found among the arguments of a command.
pub struct FoundText {
    pub json: bool,
    pub herdr: bool,
    pub wait: bool,
    pub open: bool,
    pub follow: bool,
    pub line_count: u32,
    pub cwd: Option<Seq<char>>,
    pub bind: Option<Seq<char>>,
    pub words: Seq<Seq<char>>,
}

/// What a command does without arguments.
pub open spec fn nothing_found() -> FoundText {
    FoundText {
        json: false,
        herdr: false,
        wait: false,
        open: false,
        follow: false,
        line_count: 200,
        cwd: None,
        bind: None,
        words: Seq::empty(),
    }
}

/// What the standard library says of a text that is no number of 32 bits.
pub uninterp spec fn number_fault(text: Seq<char>) -> Seq<char>;

/// `str::parse::<u32>` of the standard library: an optional plus sign and at least one decimal
/// digit, within 32 bits. What is said of any other text has only a name here.
#[verifier::external_body]
fn parse_count(text: &str) -> (result: Result<u32, String>)
    ensures
        match result {
            Ok(count) => number_value(text@, 10, u32::MAX as nat) == Some(count as nat),
            Err(cause) => number_value(text@, 10, u32::MAX as nat) is None && cause@
                == number_fault(text@),
        },
{
    text.parse::<u32>().map_err(|error| error.to_string())
}

/// What stands among the arguments of a command from `at` on, behind what was found before.
pub open spec fn scanned(
    command: CommandName,
    arguments: Seq<Seq<char>>,
    at: int,
    found: FoundText,
) -> Result<FoundText, ErrorText>
    decreases arguments.len() - at,
{
    if at >= arguments.len() {
        Ok(found)
    } else {
        let argument = arguments[at];
        let behind = if at + 1 < arguments.len() {
            Some(arguments[at + 1])
        } else {
            None
        };
        match role(command, argument) {
            ArgumentRole::Json => scanned(
                command,
                arguments,
                at + 1,
                FoundText { json: true, ..found },
            ),
            ArgumentRole::Herdr => scanned(
                command,
                arguments,
                at + 1,
                FoundText { herdr: true, ..found },
            ),
            ArgumentRole::Wait => scanned(
                command,
                arguments,
                at + 1,
                FoundText { wait: true, ..found },
            ),
            ArgumentRole::OpenUrl => scanned(
                command,
                arguments,
                at + 1,
                FoundText { open: true, ..found },
            ),
            ArgumentRole::Follow => scanned(
                command,
                arguments,
                at + 1,
                FoundText { follow: true, ..found },
            ),
            ArgumentRole::Cwd => match behind {
                Some(path) => scanned(
                    command,
                    arguments,
                    at + 2,
                    FoundText { cwd: Some(path), ..found },
                ),
                None => Err(failure(missing_value(command, "--cwd"@, "a path"@))),
            },
            ArgumentRole::Bind => match behind {
                Some(address) => scanned(
                    command,
                    arguments,
                    at + 2,
                    FoundText { bind: Some(address), ..found },
                ),
                None => Err(failure(missing_value(command, "--bind"@, "an address"@))),
            },
            ArgumentRole::Lines => {
                let message = missing_value(command, "--lines"@, "a positive integer"@);
                match behind {
                    None => Err(failure(message)),
                    Some(count) => match number_value(count, 10, u32::MAX as nat) {
                        None => Err(ErrorText { message, cause: Some(number_fault(count)) }),
                        Some(number) => if number == 0 {
                            Err(failure(message))
                        } else {
                            scanned(
                                command,
                                arguments,
                                at + 2,
                                FoundText { line_count: number as u32, ..found },
                            )
                        },
                    },
                }
            },
            ArgumentRole::Word => if takes_word(command, found.words.len()) {
                scanned(
                    command,
                    arguments,
                    at + 1,
                    FoundText { words: found.words.push(argument), ..found },
                )
            } else {
                Err(unwanted_argument(command, argument))
            },
        }
    }
}

struct Found {
    json: bool,
    herdr: bool,
    wait: bool,
    open: bool,
    follow: bool,
    line_count: u32,
    cwd: Option<String>,
    bind: Option<String>,
    words: Vec<String>,
}

impl View for Found {
    type V = FoundText;

    closed spec fn view(&self) -> FoundText {
        FoundText {
            json: self.json,
            herdr: self.herdr,
            wait: self.wait,
            open: self.open,
            follow: self.follow,
            line_count: self.line_count,
            cwd: optional_text(self.cwd),
            bind: optional_text(self.bind),
            words: texts(self.words@),
        }
    }
}

fn missing(command: CommandName, option: &str, value: &str) -> (result: String)
    ensures
        result@ == missing_value(command, option@, value@),
{
    let mut message = "Portboard ".to_owned();
    message.append(word_of(command));
    message.append(" ");
    message.append(option);
    message.append(" needs ");
    message.append(value);
    message
}

fn unwanted(command: CommandName, argument: &str) -> (result: PortboardError)
    ensures
        result@ == unwanted_argument(command, argument@),
{
    let mut message = "Portboard ".to_owned();
    message.append(word_of(command));
    match command {
        CommandName::Status | CommandName::Ps | CommandName::Serve => {
            message.append(" option `");
            message.append(argument);
            message.append("` is unknown");
        },
        _ => {
            message.append(" argument `");
            message.append(argument);
            message.append("` is unexpected");
        },
    }
    PortboardError::new(message)
}

fn more_words(command: CommandName, words: usize) -> (result: bool)
    ensures
        result == takes_word(command, words as nat),
{
    match command {
        CommandName::Status | CommandName::Ps | CommandName::Serve => false,
        CommandName::Open | CommandName::Ensure | CommandName::Logs | CommandName::Stop => words
            == 0,
        CommandName::Url => true,
    }
}

spec fn scan_text(result: Result<Found, PortboardError>) -> Result<FoundText, ErrorText> {
    match result {
        Ok(found) => Ok(found@),
        Err(error) => Err(error@),
    }
}

fn scan(command: CommandName, arguments: &[String]) -> (result: Result<Found, PortboardError>)
    ensures
        scan_text(result) == scanned(command, texts(arguments@), 1, nothing_found()),
{
    let ghost all = texts(arguments@);
    let mut found = Found {
        json: false,
        herdr: false,
        wait: false,
        open: false,
        follow: false,
        line_count: 200,
        cwd: None,
        bind: None,
        words: Vec::new(),
    };
    proof {
        assert(texts(found.words@) =~= Seq::<Seq<char>>::empty());
        assert(all.len() == arguments@.len());
    }
    let count: usize = arguments.len();
    let mut at: usize = 1;
    while at < count
        invariant
            count == arguments@.len(),
            1 <= at,
            at <= count || count == 0,
            all == texts(arguments@),
            scanned(command, all, 1, nothing_found()) == scanned(command, all, at as int, found@),
        decreases count - at,
    {
        proof {
            assert(all[at as int] == arguments@[at as int]@);
            if at + 1 < count {
                assert(all[at + 1] == arguments@[at + 1]@);
            }
        }
        match role_of(command, arguments[at].as_str()) {
            ArgumentRole::Json => {
                found.json = true;
            },
            ArgumentRole::Herdr => {
                found.herdr = true;
            },
            ArgumentRole::Wait => {
                found.wait = true;
            },
            ArgumentRole::OpenUrl => {
                found.open = true;
            },
            ArgumentRole::Follow => {
                found.follow = true;
            },
            ArgumentRole::Cwd => {
                at += 1;
                if at >= count {
                    return Err(PortboardError::new(missing(command, "--cwd", "a path")));
                }
                found.cwd = Some(arguments[at].clone());
            },
            ArgumentRole::Bind => {
                at += 1;
                if at >= count {
                    return Err(PortboardError::new(missing(command, "--bind", "an address")));
                }
                found.bind = Some(arguments[at].clone());
            },
            ArgumentRole::Lines => {
                at += 1;
                let message = missing(command, "--lines", "a positive integer");
                if at >= count {
                    return Err(PortboardError::new(message));
                }
                match parse_count(arguments[at].as_str()) {
                    Err(cause) => {
                        return Err(PortboardError::with_cause(message, cause));
                    },
                    Ok(number) => {
                        if number == 0 {
                            return Err(PortboardError::new(message));
                        }
                        found.line_count = number;
                    },
                }
            },
            ArgumentRole::Word => {
                let ghost before = texts(found.words@);
                if !more_words(command, found.words.len()) {
                    return Err(unwanted(command, arguments[at].as_str()));
                }
                found.words.push(arguments[at].clone());
                proof {
                    assert(texts(found.words@) =~= before.push(all[at as int]));
                }
            },
        }
        at += 1;
    }
    Ok(found)
}

/// What the command line asks for.
#[derive(Debug, PartialEq, Eq)]
pub enum CliCommand {
    Status { json: bool, cwd: Option<String> },
    Ps { json: bool, cwd: Option<String> },
    Open { requested_id: Option<String>, cwd: Option<String> },
    Ensure { target_id: String, wait: bool, cwd: Option<String> },
    Url { target_id: String, endpoint_id: Option<String>, open: bool, cwd: Option<String> },
    OpenUrl { url: Option<String> },
    Logs { target_id: String, line_count: u32, follow: bool, cwd: Option<String> },
    Stop { target_id: String, cwd: Option<String> },
    Serve { bind: Option<String>, cwd: Option<String> },
    Panel,
    PluginOpen,
    Help,
}

/// What a command says.
pub enum CommandText {
    Status { json: bool, cwd: Option<Seq<char>> },
    Ps { json: bool, cwd: Option<Seq<char>> },
    Open { requested_id: Option<Seq<char>>, cwd: Option<Seq<char>> },
    Ensure { target_id: Seq<char>, wait: bool, cwd: Option<Seq<char>> },
    Url {
        target_id: Seq<char>,
        endpoint_id: Option<Seq<char>>,
        open: bool,
        cwd: Option<Seq<char>>,
    },
    OpenUrl { url: Option<Seq<char>> },
    Logs { target_id: Seq<char>, line_count: u32, follow: bool, cwd: Option<Seq<char>> },
    Stop { target_id: Seq<char>, cwd: Option<Seq<char>> },
    Serve { bind: Option<Seq<char>>, cwd: Option<Seq<char>> },
    Panel,
    PluginOpen,
    Help,
}

impl View for CliCommand {
    type V = CommandText;

    open spec fn view(&self) -> CommandText {
        match *self {
            CliCommand::Status { json, cwd } => CommandText::Status {
                json,
                cwd: optional_text(cwd),
            },
            CliCommand::Ps { json, cwd } => CommandText::Ps { json, cwd: optional_text(cwd) },
            CliCommand::Open { requested_id, cwd } => CommandText::Open {
                requested_id: optional_text(requested_id),
                cwd: optional_text(cwd),
            },
            CliCommand::Ensure { target_id, wait, cwd } => CommandText::Ensure {
                target_id: target_id@,
                wait,
                cwd: optional_text(cwd),
            },
            CliCommand::Url { target_id, endpoint_id, open, cwd } => CommandText::Url {
                target_id: target_id@,
                endpoint_id: optional_text(endpoint_id),
                open,
                cwd: optional_text(cwd),
            },
            CliCommand::OpenUrl { url } => CommandText::OpenUrl { url: optional_text(url) },
            CliCommand::Logs { target_id, line_count, follow, cwd } => CommandText::Logs {
                target_id: target_id@,
                line_count,
                follow,
                cwd: optional_text(cwd),
            },
            CliCommand::Stop { target_id, cwd } => CommandText::Stop {
                target_id: target_id@,
                cwd: optional_text(cwd),
            },
            CliCommand::Serve { bind, cwd } => CommandText::Serve {
                bind: optional_text(bind),
                cwd: optional_text(cwd),
            },
            CliCommand::Panel => CommandText::Panel,
            CliCommand::PluginOpen => CommandText::PluginOpen,
            CliCommand::Help => CommandText::Help,
        }
    }
}

/// The word at a place, where there is one.
pub open spec fn word_at(words: Seq<Seq<char>>, at: int) -> Option<Seq<char>> {
    if 0 <= at < words.len() {
        Some(words[at])
    } else {
        None
    }
}

/// What a command asks for, given what was found among its arguments.
pub open spec fn asked(command: CommandName, found: FoundText) -> Result<CommandText, ErrorText> {
    let first = word_at(found.words, 0);
    let no_target = failure(
        "Portboard "@ + command_word(command) + " needs a launch target id"@,
    );
    match command {
        CommandName::Status => Ok(CommandText::Status { json: found.json, cwd: found.cwd }),
        CommandName::Ps => Ok(CommandText::Ps { json: found.json, cwd: found.cwd }),
        CommandName::Open => Ok(CommandText::Open { requested_id: first, cwd: found.cwd }),
        CommandName::Ensure => match first {
            None => Err(no_target),
            Some(target_id) => if found.herdr {
                Ok(CommandText::Ensure { target_id, wait: found.wait, cwd: found.cwd })
            } else {
                Err(
                    failure(
                        "Portboard ensure currently requires --herdr so it cannot fall back to a background process"@,
                    ),
                )
            },
        },
        CommandName::Url => match first {
            None => Err(no_target),
            Some(target_id) => if found.words.len() > 2 {
                Err(failure("Portboard url received too many endpoint identifiers"@))
            } else {
                Ok(
                    CommandText::Url {
                        target_id,
                        endpoint_id: word_at(found.words, 1),
                        open: found.open,
                        cwd: found.cwd,
                    },
                )
            },
        },
        CommandName::Logs => match first {
            None => Err(no_target),
            Some(target_id) => Ok(
                CommandText::Logs {
                    target_id,
                    line_count: found.line_count,
                    follow: found.follow,
                    cwd: found.cwd,
                },
            ),
        },
        CommandName::Stop => match first {
            None => Err(no_target),
            Some(target_id) => Ok(CommandText::Stop { target_id, cwd: found.cwd }),
        },
        CommandName::Serve => Ok(CommandText::Serve { bind: found.bind, cwd: found.cwd }),
    }
}

/// The command that a word names, where it takes options.
pub open spec fn named_command(word: Seq<char>) -> Option<CommandName> {
    if word == "status"@ {
        Some(CommandName::Status)
    } else if word == "ps"@ {
        Some(CommandName::Ps)
    } else if word == "open"@ {
        Some(CommandName::Open)
    } else if word == "ensure"@ {
        Some(CommandName::Ensure)
    } else if word == "url"@ {
        Some(CommandName::Url)
    } else if word == "logs"@ {
        Some(CommandName::Logs)
    } else if word == "stop"@ {
        Some(CommandName::Stop)
    } else if word == "serve"@ {
        Some(CommandName::Serve)
    } else {
        None
    }
}

/// What the arguments of the command line ask for.
pub open spec fn requested(arguments: Seq<Seq<char>>) -> Result<CommandText, ErrorText> {
    let word = if arguments.len() == 0 {
        "status"@
    } else {
        arguments[0]
    };
    match named_command(word) {
        Some(command) => match scanned(command, arguments, 1, nothing_found()) {
            Ok(found) => asked(command, found),
            Err(error) => Err(error),
        },
        None => if word == "open-url"@ {
            Ok(CommandText::OpenUrl { url: word_at(arguments, 1) })
        } else if word == "panel"@ {
            Ok(CommandText::Panel)
        } else if word == "plugin-open"@ {
            Ok(CommandText::PluginOpen)
        } else if word == "help"@ || word == "--help"@ || word == "-h"@ {
            Ok(CommandText::Help)
        } else {
            Err(failure("Portboard command `"@ + word + "` is unknown; run `portboard help`"@))
        },
    }
}

fn command_named(word: &str) -> (result: Option<CommandName>)
    ensures
        result == named_command(word@),
{
    if same_text(word, "status") {
        Some(CommandName::Status)
    } else if same_text(word, "ps") {
        Some(CommandName::Ps)
    } else if same_text(word, "open") {
        Some(CommandName::Open)
    } else if same_text(word, "ensure") {
        Some(CommandName::Ensure)
    } else if same_text(word, "url") {
        Some(CommandName::Url)
    } else if same_text(word, "logs") {
        Some(CommandName::Logs)
    } else if same_text(word, "stop") {
        Some(CommandName::Stop)
    } else if same_text(word, "serve") {
        Some(CommandName::Serve)
    } else {
        None
    }
}

fn pick_word(words: &[String], at: usize) -> (result: Option<String>)
    ensures
        optional_text(result) == word_at(texts(words@), at as int),
{
    if at < words.len() {
        proof {
            assert(texts(words@)[at as int] == words@[at as int]@);
        }
        Some(words[at].clone())
    } else {
        None
    }
}

/// A request, or why there is none.
pub open spec fn request_text(result: Result<CliCommand, PortboardError>) -> Result<
    CommandText,
    ErrorText,
> {
    match result {
        Ok(command) => Ok(command@),
        Err(error) => Err(error@),
    }
}

fn ask(command: CommandName, found: Found) -> (result: Result<CliCommand, PortboardError>)
    ensures
        request_text(result) == asked(command, found@),
{
    let first = pick_word(found.words.as_slice(), 0);
    let second = pick_word(found.words.as_slice(), 1);
    let mut no_target = "Portboard ".to_owned();
    no_target.append(word_of(command));
    no_target.append(" needs a launch target id");
    match command {
        CommandName::Status => Ok(CliCommand::Status { json: found.json, cwd: found.cwd }),
        CommandName::Ps => Ok(CliCommand::Ps { json: found.json, cwd: found.cwd }),
        CommandName::Open => Ok(CliCommand::Open { requested_id: first, cwd: found.cwd }),
        CommandName::Ensure => match first {
            None => Err(PortboardError::new(no_target)),
            Some(target_id) => {
                if found.herdr {
                    Ok(CliCommand::Ensure { target_id, wait: found.wait, cwd: found.cwd })
                } else {
                    Err(
                        PortboardError::new(
                            "Portboard ensure currently requires --herdr so it cannot fall back to a background process".to_owned(),
                        ),
                    )
                }
            },
        },
        CommandName::Url => match first {
            None => Err(PortboardError::new(no_target)),
            Some(target_id) => {
                if found.words.len() > 2 {
                    Err(
                        PortboardError::new(
                            "Portboard url received too many endpoint identifiers".to_owned(),
                        ),
                    )
                } else {
                    Ok(
                        CliCommand::Url {
                            target_id,
                            endpoint_id: second,
                            open: found.open,
                            cwd: found.cwd,
                        },
                    )
                }
            },
        },
        CommandName::Logs => match first {
            None => Err(PortboardError::new(no_target)),
            Some(target_id) => Ok(
                CliCommand::Logs {
                    target_id,
                    line_count: found.line_count,
                    follow: found.follow,
                    cwd: found.cwd,
                },
            ),
        },
        CommandName::Stop => match first {
            None => Err(PortboardError::new(no_target)),
            Some(target_id) => Ok(CliCommand::Stop { target_id, cwd: found.cwd }),
        },
        CommandName::Serve => Ok(CliCommand::Serve { bind: found.bind, cwd: found.cwd }),
    }
}

/// Reads the arguments of the Portboard command line interface: says what they ask for.
pub fn run_portboard_cli(arguments: &[String]) -> (result: Result<CliCommand, PortboardError>)
    ensures
        request_text(result) == requested(texts(arguments@)),
{
    proof {
        assert(texts(arguments@).len() == arguments@.len());
        if arguments@.len() > 0 {
            assert(texts(arguments@)[0] == arguments@[0]@);
        }
    }
    let word: &str = if arguments.len() == 0 {
        "status"
    } else {
        arguments[0].as_str()
    };
    match command_named(word) {
        Some(command) => {
            match scan(command, arguments) {
                Ok(found) => ask(command, found),
                Err(error) => Err(error),
            }
        },
        None => {
            if same_text(word, "open-url") {
                Ok(CliCommand::OpenUrl { url: pick_word(arguments, 1) })
            } else if same_text(word, "panel") {
                Ok(CliCommand::Panel)
            } else if same_text(word, "plugin-open") {
                Ok(CliCommand::PluginOpen)
            } else if same_text(word, "help") || same_text(word, "--help") || same_text(
                word,
                "-h",
            ) {
                Ok(CliCommand::Help)
            } else {
                let mut message = "Portboard command `".to_owned();
                message.append(word);
                message.append("` is unknown; run `portboard help`");
                Err(PortboardError::new(message))
            }
        },
    }
}

/// Without arguments the status is shown.
pub proof fn status_is_the_default()
    ensures
        requested(Seq::empty()) == requested(seq!["status"@]),
        requested(Seq::empty()) == Ok::<CommandText, ErrorText>(
            CommandText::Status { json: false, cwd: None },
        ),
{
    let bare: Seq<Seq<char>> = Seq::empty();
    let plain = seq!["status"@];
    assert(scanned(CommandName::Status, bare, 1, nothing_found()) == Ok::<FoundText, ErrorText>(
        nothing_found(),
    ));
    assert(scanned(CommandName::Status, plain, 1, nothing_found()) == Ok::<FoundText, ErrorText>(
        nothing_found(),
    ));
}

/// The decimal digits of every number of a list.
pub open spec fn decimals(numbers: Seq<u32>) -> Seq<Seq<char>> {
    Seq::new(numbers.len(), |i: int| decimal(numbers[i] as nat))
}

pub(crate) fn decimals_of(numbers: &Vec<u32>) -> (result: Vec<String>)
    ensures
        texts(result@) == decimals(numbers@),
{
    let mut result = no_texts();
    let mut index: usize = 0;
    while index < numbers.len()
        invariant
            index <= numbers.len(),
            texts(result@) == decimals(numbers@.take(index as int)),
        decreases numbers.len() - index,
    {
        let digits = decimal_text(numbers[index] as u64);
        push_text(&mut result, digits.as_str());
        index += 1;
        proof {
            assert(texts(result@) =~= decimals(numbers@.take(index as int)));
        }
    }
    proof {
        assert(numbers@.take(index as int) =~= numbers@);
    }
    result
}

/// The addresses that are listened on, as the status shows them.
pub open spec fn addresses_shown(endpoints: Seq<EndpointText>) -> Seq<Seq<char>> {
    Seq::new(
        endpoints.len(),
        |i: int| endpoints[i].address + ":"@ + decimal(endpoints[i].port as nat),
    )
}

/// The named endpoints, as the status shows them.
pub open spec fn names_shown(endpoints: Seq<NamedText>) -> Seq<Seq<char>> {
    Seq::new(endpoints.len(), |i: int| endpoints[i].id + " "@ + endpoints[i].url)
}

/// The endpoints of a target, by their names where they have names.
pub open spec fn endpoint_summary(status: StatusText) -> Seq<char> {
    if status.named_endpoints.len() == 0 {
        joined(addresses_shown(status.endpoints), ", "@)
    } else {
        joined(names_shown(status.named_endpoints), ", "@)
    }
}

/// The state of a target in words.
pub open spec fn state_words(status: StatusText) -> Seq<char> {
    match status.state {
        StateText::Stopped => "stopped"@,
        StateText::Running(runs) => {
            let pids = joined(decimals(run_pids(runs)), ", "@);
            if status.duplicate {
                "running · DUPLICATE ("@ + decimal(runs.len()) + " instances) (pid "@ + pids
                    + ")"@
            } else {
                "running (pid "@ + pids + ")"@
            }
        },
    }
}

/// The line for the status of a target.
pub open spec fn status_line(status: StatusText) -> Seq<char> {
    let start = "  "@ + padded(status.label, 24) + " "@ + state_words(status);
    if endpoint_summary(status).len() == 0 {
        start
    } else {
        start + " · "@ + endpoint_summary(status)
    }
}

/// The lines for the status of every target.
pub open spec fn status_lines(statuses: Seq<StatusText>) -> Seq<Seq<char>> {
    Seq::new(statuses.len(), |i: int| status_line(statuses[i]))
}

/// The lines for what is to be warned of.
pub open spec fn warning_lines(findings: Seq<Seq<char>>) -> Seq<Seq<char>> {
    Seq::new(findings.len(), |i: int| "  warning: "@ + findings[i])
}

/// The first line of what is printed of a worktree, or of a log file.
pub open spec fn heading(place: Seq<char>) -> Seq<char> {
    "Portboard · "@ + place
}

/// Writes the first line of what is printed of a worktree, or of a log file.
pub fn write_heading(place: &str) -> (result: String)
    ensures
        result@ == heading(place@),
{
    let mut line = "Portboard · ".to_owned();
    line.append(place);
    line
}

fn write_addresses(endpoints: &Vec<ProcessEndpoint>) -> (result: Vec<String>)
    ensures
        texts(result@) == addresses_shown(endpoint_texts(endpoints@)),
{
    let ghost all = endpoint_texts(endpoints@);
    let mut result = no_texts();
    let mut index: usize = 0;
    while index < endpoints.len()
        invariant
            index <= endpoints.len(),
            all == endpoint_texts(endpoints@),
            texts(result@) == addresses_shown(all).take(index as int),
        decreases endpoints.len() - index,
    {
        proof {
            assert(all[index as int] == endpoints@[index as int]@);
        }
        let mut shown = endpoints[index].address.clone();
        shown.append(":");
        push_decimal(&mut shown, endpoints[index].port as u64);
        push_text(&mut result, shown.as_str());
        index += 1;
        proof {
            assert(texts(result@) =~= addresses_shown(all).take(index as int));
        }
    }
    proof {
        assert(texts(result@) =~= addresses_shown(all));
    }
    result
}

fn write_names(endpoints: &Vec<RuntimeEndpoint>) -> (result: Vec<String>)
    ensures
        texts(result@) == names_shown(named_texts(endpoints@)),
{
    let ghost all = named_texts(endpoints@);
    let mut result = no_texts();
    let mut index: usize = 0;
    while index < endpoints.len()
        invariant
            index <= endpoints.len(),
            all == named_texts(endpoints@),
            texts(result@) == names_shown(all).take(index as int),
        decreases endpoints.len() - index,
    {
        proof {
            assert(all[index as int] == endpoints@[index as int]@);
        }
        let mut shown = endpoints[index].id.clone();
        shown.append(" ");
        shown.append(endpoints[index].url.as_str());
        push_text(&mut result, shown.as_str());
        index += 1;
        proof {
            assert(texts(result@) =~= names_shown(all).take(index as int));
        }
    }
    proof {
        assert(texts(result@) =~= names_shown(all));
    }
    result
}

fn write_state(status: &CurrentLaunchTargetStatus) -> (result: String)
    ensures
        result@ == state_words(status@),
{
    match &status.state {
        LaunchTargetRuntimeState::Stopped => "stopped".to_owned(),
        LaunchTargetRuntimeState::Running { processes } => {
            proof {
                assert(run_texts(processes@).len() == processes.len());
            }
            let digits = decimals_of(&pids_of_runs(processes));
            let pids = join(&digits, ", ");
            let mut words = String::new();
            if status.duplicate {
                words.append("running · DUPLICATE (");
                push_decimal(&mut words, processes.len() as u64);
                words.append(" instances) (pid ");
            } else {
                words.append("running (pid ");
            }
            words.append(pids.as_str());
            words.append(")");
            proof {
                assert(words@ =~= state_words(status@));
            }
            words
        },
    }
}

fn write_status_line(status: &CurrentLaunchTargetStatus) -> (result: String)
    ensures
        result@ == status_line(status@),
{
    proof {
        assert(status@.named_endpoints.len() == status.named_endpoints.len());
    }
    let parts = if status.named_endpoints.len() == 0 {
        write_addresses(&status.endpoints)
    } else {
        write_names(&status.named_endpoints)
    };
    let summary = join(&parts, ", ");
    let label = pad_to(status.label.as_str(), 24);
    let state = write_state(status);
    let mut line = "  ".to_owned();
    line.append(label.as_str());
    line.append(" ");
    line.append(state.as_str());
    if summary.as_str().unicode_len() > 0 {
        line.append(" · ");
        line.append(summary.as_str());
    }
    line
}

/// Writes what the status command prints of a worktree for a reader.
pub fn run_status_command(root: &str, inspection: &WorktreeLaunchTargetInspection) -> (result: Vec<
    String,
>)
    ensures
        texts(result@) == seq![heading(root@)] + status_lines(status_texts(inspection.statuses@))
            + warning_lines(texts(inspection.findings@)),
{
    let ghost statuses = status_texts(inspection.statuses@);
    let ghost findings = texts(inspection.findings@);
    let mut lines = no_texts();
    let first = write_heading(root);
    push_text(&mut lines, first.as_str());
    let mut index: usize = 0;
    proof {
        assert(texts(lines@) =~= seq![heading(root@)] + status_lines(statuses).take(0));
    }
    while index < inspection.statuses.len()
        invariant
            index <= inspection.statuses.len(),
            statuses == status_texts(inspection.statuses@),
            texts(lines@) == seq![heading(root@)] + status_lines(statuses).take(index as int),
        decreases inspection.statuses.len() - index,
    {
        proof {
            assert(statuses[index as int] == inspection.statuses@[index as int]@);
        }
        let line = write_status_line(&inspection.statuses[index]);
        push_text(&mut lines, line.as_str());
        index += 1;
        proof {
            assert(texts(lines@) =~= seq![heading(root@)] + status_lines(statuses).take(
                index as int,
            ));
        }
    }
    let ghost above = seq![heading(root@)] + status_lines(statuses);
    proof {
        assert(status_lines(statuses).take(index as int) =~= status_lines(statuses));
        assert(texts(lines@) =~= above + warning_lines(findings).take(0));
    }
    let mut index: usize = 0;
    while index < inspection.findings.len()
        invariant
            index <= inspection.findings.len(),
            findings == texts(inspection.findings@),
            texts(lines@) == above + warning_lines(findings).take(index as int),
        decreases inspection.findings.len() - index,
    {
        proof {
            assert(findings[index as int] == inspection.findings@[index as int]@);
        }
        let mut line = "  warning: ".to_owned();
        line.append(inspection.findings[index].as_str());
        push_text(&mut lines, line.as_str());
        index += 1;
        proof {
            assert(texts(lines@) =~= above + warning_lines(findings).take(index as int));
        }
    }
    proof {
        assert(warning_lines(findings).take(index as int) =~= warning_lines(findings));
    }
    lines
}

/// The width of the widest of the first `count` values, and at least that of the heading.
pub open spec fn widest(heading: Seq<char>, values: Seq<Seq<char>>, count: int) -> nat
    decreases count,
{
    if count <= 0 {
        heading.len()
    } else {
        let before = widest(heading, values, count - 1);
        if values[count - 1].len() > before {
            values[count - 1].len()
        } else {
            before
        }
    }
}

/// The width of a column.
pub fn column_width(heading: &str, values: &Vec<String>) -> (result: usize)
    ensures
        result == widest(heading@, texts(values@), values@.len() as int),
{
    let mut width: usize = heading.unicode_len();
    let mut index: usize = 0;
    while index < values.len()
        invariant
            index <= values.len(),
            width == widest(heading@, texts(values@), index as int),
        decreases values.len() - index,
    {
        proof {
            assert(texts(values@)[index as int] == values@[index as int]@);
        }
        let length: usize = values[index].as_str().unicode_len();
        if length > width {
            width = length;
        }
        index += 1;
    }
    width
}

/// A column is as wide as its heading and every value in it, and no wider than needed.
pub proof fn columns_fit(heading: Seq<char>, values: Seq<Seq<char>>, count: int)
    requires
        0 <= count <= values.len(),
    ensures
        heading.len() <= widest(heading, values, count),
        forall|i: int|
            0 <= i < count ==> (#[trigger] values[i]).len() <= widest(heading, values, count),
        widest(heading, values, count) == heading.len() || exists|i: int|
            0 <= i < count && widest(heading, values, count) == (#[trigger] values[i]).len(),
    decreases count,
{
    if count > 0 {
        columns_fit(heading, values, count - 1);
        assert(widest(heading, values, count) == values[count - 1].len() || widest(
            heading,
            values,
            count,
        ) == widest(heading, values, count - 1));
    }
}

/// Fills a value up with spaces.
pub fn pad_column(value: &str, width: usize) -> (result: String)
    ensures
        result@ == padded(value@, width as nat),
{
    pad_to(value, width)
}

/// Shortens a value to a width.
pub fn truncate_column(value: &str, width: usize) -> (result: String)
    ensures
        result@ == shortened(value@, width as nat),
{
    shorten_to(value, width)
}

/// A list in one cell; a dash where it is empty.
pub open spec fn cell(parts: Seq<Seq<char>>, separator: Seq<char>) -> Seq<char> {
    if parts.len() == 0 {
        "—"@
    } else {
        joined(parts, separator)
    }
}

fn write_cell(parts: &Vec<String>, separator: &str) -> (result: String)
    ensures
        result@ == cell(texts(parts@), separator@),
{
    proof {
        assert(texts(parts@).len() == parts.len());
    }
    if parts.len() == 0 {
        "—".to_owned()
    } else {
        join(parts, separator)
    }
}

/// The ports that are listened on, as the inventory shows them.
pub open spec fn ports_shown(endpoints: Seq<EndpointText>) -> Seq<Seq<char>> {
    Seq::new(endpoints.len(), |i: int| ":"@ + decimal(endpoints[i].port as nat))
}

pub(crate) fn write_ports(endpoints: &Vec<ProcessEndpoint>) -> (result: Vec<String>)
    ensures
        texts(result@) == ports_shown(endpoint_texts(endpoints@)),
{
    let ghost all = endpoint_texts(endpoints@);
    let mut result = no_texts();
    let mut index: usize = 0;
    while index < endpoints.len()
        invariant
            index <= endpoints.len(),
            all == endpoint_texts(endpoints@),
            texts(result@) == ports_shown(all).take(index as int),
        decreases endpoints.len() - index,
    {
        proof {
            assert(all[index as int] == endpoints@[index as int]@);
        }
        let mut shown = ":".to_owned();
        push_decimal(&mut shown, endpoints[index].port as u64);
        push_text(&mut result, shown.as_str());
        index += 1;
        proof {
            assert(texts(result@) =~= ports_shown(all).take(index as int));
        }
    }
    proof {
        assert(texts(result@) =~= ports_shown(all));
    }
    result
}

/// The column of process ids.
pub open spec fn pid_column(entries: Seq<InventoryText>) -> Seq<Seq<char>> {
    Seq::new(entries.len(), |i: int| decimal(entries[i].pid as nat))
}

/// The column of targets.
pub open spec fn target_column(entries: Seq<InventoryText>) -> Seq<Seq<char>> {
    Seq::new(entries.len(), |i: int| cell(entries[i].target_ids, ", "@))
}

/// The column of ports.
pub open spec fn port_column(entries: Seq<InventoryText>) -> Seq<Seq<char>> {
    Seq::new(entries.len(), |i: int| cell(ports_shown(entries[i].endpoints), " "@))
}

/// A line of the table of processes.
pub open spec fn table_line(
    pid: Seq<char>,
    target: Seq<char>,
    ports: Seq<char>,
    argv: Seq<char>,
    widths: (nat, nat, nat),
) -> Seq<char> {
    padded(pid, widths.0) + "  "@ + padded(target, widths.1) + "  "@ + padded(ports, widths.2)
        + "  "@ + argv
}

/// The widths of the columns of the table of processes.
pub open spec fn table_widths(entries: Seq<InventoryText>) -> (nat, nat, nat) {
    (
        widest("PID"@, pid_column(entries), entries.len() as int),
        widest("TARGET"@, target_column(entries), entries.len() as int),
        widest("PORTS"@, port_column(entries), entries.len() as int),
    )
}

/// The line for a process.
pub open spec fn process_line(entries: Seq<InventoryText>, index: int) -> Seq<char> {
    table_line(
        pid_column(entries)[index],
        target_column(entries)[index],
        port_column(entries)[index],
        shortened(joined(entries[index].argv, " "@), 60),
        table_widths(entries),
    )
}

/// The lines for all processes.
pub open spec fn process_lines(entries: Seq<InventoryText>) -> Seq<Seq<char>> {
    Seq::new(entries.len(), |i: int| process_line(entries, i))
}

fn write_table_line(
    pid: &str,
    target: &str,
    ports: &str,
    argv: &str,
    widths: (usize, usize, usize),
) -> (result: String)
    ensures
        result@ == table_line(
            pid@,
            target@,
            ports@,
            argv@,
            (widths.0 as nat, widths.1 as nat, widths.2 as nat),
        ),
{
    let mut line = pad_column(pid, widths.0);
    let target = pad_column(target, widths.1);
    let ports = pad_column(ports, widths.2);
    line.append("  ");
    line.append(target.as_str());
    line.append("  ");
    line.append(ports.as_str());
    line.append("  ");
    line.append(argv);
    line
}

/// Writes what the ps command prints of a worktree for a reader.
pub fn run_ps_command(root: &str, entries: &Vec<WorktreeProcessInventoryEntry>) -> (result: Vec<
    String,
>)
    ensures
        texts(result@) == seq![
            heading(root@),
            table_line(
                "PID"@,
                "TARGET"@,
                "PORTS"@,
                "ARGV"@,
                table_widths(inventory_texts(entries@)),
            ),
        ] + process_lines(inventory_texts(entries@)),
{
    let ghost all = inventory_texts(entries@);
    let mut pids = no_texts();
    let mut targets = no_texts();
    let mut ports = no_texts();
    let mut index: usize = 0;
    while index < entries.len()
        invariant
            index <= entries.len(),
            all == inventory_texts(entries@),
            texts(pids@) == pid_column(all).take(index as int),
            texts(targets@) == target_column(all).take(index as int),
            texts(ports@) == port_column(all).take(index as int),
        decreases entries.len() - index,
    {
        proof {
            assert(all[index as int] == entries@[index as int]@);
        }
        let pid = decimal_text(entries[index].pid as u64);
        let target = write_cell(&entries[index].target_ids, ", ");
        let listed = write_ports(&entries[index].endpoints);
        let port = write_cell(&listed, " ");
        push_text(&mut pids, pid.as_str());
        push_text(&mut targets, target.as_str());
        push_text(&mut ports, port.as_str());
        index += 1;
        proof {
            assert(texts(pids@) =~= pid_column(all).take(index as int));
            assert(texts(targets@) =~= target_column(all).take(index as int));
            assert(texts(ports@) =~= port_column(all).take(index as int));
        }
    }
    proof {
        assert(texts(pids@) =~= pid_column(all));
        assert(texts(targets@) =~= target_column(all));
        assert(texts(ports@) =~= port_column(all));
        assert(texts(pids@).len() == pids@.len());
        assert(texts(targets@).len() == targets@.len());
        assert(texts(ports@).len() == ports@.len());
    }
    let widths = (
        column_width("PID", &pids),
        column_width("TARGET", &targets),
        column_width("PORTS", &ports),
    );
    let mut lines = no_texts();
    let first = write_heading(root);
    push_text(&mut lines, first.as_str());
    let titles = write_table_line("PID", "TARGET", "PORTS", "ARGV", widths);
    push_text(&mut lines, titles.as_str());
    let ghost above = seq![heading(root@), titles@];
    proof {
        assert(texts(lines@) =~= above + process_lines(all).take(0));
    }
    let mut index: usize = 0;
    while index < entries.len()
        invariant
            index <= entries.len(),
            all == inventory_texts(entries@),
            pids@.len() == entries@.len(),
            targets@.len() == entries@.len(),
            ports@.len() == entries@.len(),
            texts(pids@) == pid_column(all),
            texts(targets@) == target_column(all),
            texts(ports@) == port_column(all),
            (widths.0 as nat, widths.1 as nat, widths.2 as nat) == table_widths(all),
            texts(lines@) == above + process_lines(all).take(index as int),
        decreases entries.len() - index,
    {
        proof {
            assert(all[index as int] == entries@[index as int]@);
            assert(texts(pids@)[index as int] == pids@[index as int]@);
            assert(texts(targets@)[index as int] == targets@[index as int]@);
            assert(texts(ports@)[index as int] == ports@[index as int]@);
        }
        let command = join(&entries[index].argv, " ");
        let argv = truncate_column(command.as_str(), 60);
        let line = write_table_line(
            pids[index].as_str(),
            targets[index].as_str(),
            ports[index].as_str(),
            argv.as_str(),
            widths,
        );
        push_text(&mut lines, line.as_str());
        index += 1;
        proof {
            assert(texts(lines@) =~= above + process_lines(all).take(index as int));
        }
    }
    proof {
        assert(process_lines(all).take(index as int) =~= process_lines(all));
    }
    lines
}

/// The word for how a target was ensured.
pub open spec fn outcome_words(outcome: EnsureLaunchTargetOutcome) -> Seq<char> {
    match outcome {
        EnsureLaunchTargetOutcome::Started => "started"@,
        EnsureLaunchTargetOutcome::AlreadyRunning => "already running"@,
        EnsureLaunchTargetOutcome::Starting => "starting"@,
    }
}

/// Writes what the ensure command prints: how the target was ensured, and its primary URL.
pub fn run_ensure_command(target_id: &str, ensured: &EnsureLaunchTargetResult) -> (result: Vec<
    String,
>)
    ensures
        texts(result@) == (match ensured.primary_endpoint {
            Some(endpoint) => seq![
                target_id@ + ": "@ + outcome_words(ensured.outcome),
                endpoint@.url,
            ],
            None => seq![target_id@ + ": "@ + outcome_words(ensured.outcome)],
        }),
{
    let mut lines = no_texts();
    let mut line = target_id.to_owned();
    line.append(": ");
    line.append(ensured.outcome.words());
    push_text(&mut lines, line.as_str());
    match &ensured.primary_endpoint {
        Some(endpoint) => {
            push_text(&mut lines, endpoint.url.as_str());
        },
        None => {},
    }
    proof {
        assert(texts(lines@) =~= (match ensured.primary_endpoint {
            Some(endpoint) => seq![
                target_id@ + ": "@ + outcome_words(ensured.outcome),
                endpoint@.url,
            ],
            None => seq![target_id@ + ": "@ + outcome_words(ensured.outcome)],
        }));
    }
    lines
}

/// A sentence about one launch target.
pub open spec fn about_target(target_id: Seq<char>, rest: Seq<char>) -> Seq<char> {
    "Portboard launch target `"@ + target_id + "`"@ + rest
}

fn target_message(target_id: &str, rest: &str) -> (result: String)
    ensures
        result@ == about_target(target_id@, rest@),
{
    let mut message = "Portboard launch target `".to_owned();
    message.append(target_id);
    message.append("`");
    message.append(rest);
    message
}

/// The URL that is asked for, given how many runs the target has and what loading its metadata
/// gave.
pub open spec fn chosen_url(
    target_id: Seq<char>,
    endpoint_id: Option<Seq<char>>,
    runs: nat,
    loaded: Result<Option<MetadataText>, ErrorText>,
) -> Result<Seq<char>, ErrorText> {
    if runs == 0 {
        Err(failure(about_target(target_id, " is not running"@)))
    } else {
        match loaded {
            Err(error) => Err(error),
            Ok(None) => Err(failure(about_target(target_id, " has no current runtime metadata"@))),
            Ok(Some(metadata)) => match endpoint_id {
                Some(id) => match first_named(metadata.endpoints, id) {
                    Some(endpoint) => Ok(endpoint.url),
                    None => Err(
                        failure(about_target(target_id, " has no endpoint `"@ + id + "`"@)),
                    ),
                },
                None => match first_primary(metadata.endpoints) {
                    Some(endpoint) => Ok(endpoint.url),
                    None => Err(failure(about_target(target_id, " has no primary endpoint"@))),
                },
            },
        }
    }
}

/// A text, or why there is none.
pub open spec fn answer_text(result: Result<String, PortboardError>) -> Result<
    Seq<char>,
    ErrorText,
> {
    match result {
        Ok(text) => Ok(text@),
        Err(error) => Err(error@),
    }
}

/// Chooses the URL that the url command is asked for. The metadata counts only where the target
/// runs.
pub fn run_url_command(
    target_id: &str,
    endpoint_id: &Option<String>,
    processes: &Vec<LaunchTargetProcess>,
    loaded: Result<Option<LaunchTargetRuntimeMetadata>, PortboardError>,
) -> (result: Result<String, PortboardError>)
    ensures
        answer_text(result) == chosen_url(
            target_id@,
            optional_text(*endpoint_id),
            processes@.len(),
            load_text(loaded),
        ),
{
    if processes.len() == 0 {
        return Err(PortboardError::new(target_message(target_id, " is not running")));
    }
    match loaded {
        Err(error) => Err(error),
        Ok(None) => Err(
            PortboardError::new(target_message(target_id, " has no current runtime metadata")),
        ),
        Ok(Some(metadata)) => match endpoint_id {
            Some(id) => match find_named(&metadata.endpoints, id.as_str()) {
                Some(endpoint) => Ok(endpoint.url.clone()),
                None => {
                    let mut rest = " has no endpoint `".to_owned();
                    rest.append(id.as_str());
                    rest.append("`");
                    Err(PortboardError::new(target_message(target_id, rest.as_str())))
                },
            },
            None => match metadata.primary_endpoint() {
                Some(endpoint) => Ok(endpoint.url.clone()),
                None => Err(
                    PortboardError::new(target_message(target_id, " has no primary endpoint")),
                ),
            },
        },
    }
}

/// Writes a URL: as a hyperlink on a terminal, as it is elsewhere.
pub fn write_url(url: &str, is_terminal: bool) -> (result: String)
    ensures
        result@ == (if is_terminal {
            hyperlink_text(url@, parsed_url(url@))
        } else {
            url@
        }),
{
    if is_terminal {
        osc8_hyperlink(url)
    } else {
        url.to_owned()
    }
}

/// Writes what the url command prints behind the URL, up to the end of its last line: what
/// came of opening it, where it was to be opened.
pub fn write_url_closing(target_id: &str, opened: Option<UrlOpenOutcome>) -> (result: String)
    ensures
        result@ == (match opened {
            None => ""@,
            Some(UrlOpenOutcome::OpenedLocally) => "\n"@ + target_id@
                + ": opened in your browser"@,
            Some(UrlOpenOutcome::OfferedLink) => "\n"@ + target_id@
                + ": ctrl-click the URL above to open it in your local browser"@,
        }),
{
    match opened {
        None => "".to_owned(),
        Some(outcome) => {
            let mut text = "\n".to_owned();
            text.append(target_id);
            match outcome {
                UrlOpenOutcome::OpenedLocally => {
                    text.append(": opened in your browser");
                },
                UrlOpenOutcome::OfferedLink => {
                    text.append(": ctrl-click the URL above to open it in your local browser");
                },
            }
            text
        },
    }
}

/// The URL to open: an argument, or the URL that was clicked.
pub open spec fn url_to_open(argument: Option<Seq<char>>, clicked: Option<Seq<char>>) -> Result<
    Seq<char>,
    ErrorText,
> {
    let wanted = match argument {
        Some(url) => Some(url),
        None => clicked,
    };
    match wanted {
        None => Err(
            failure("Portboard open-url needs a URL argument or HERDR_PLUGIN_CLICKED_URL"@),
        ),
        Some(url) => if has_control(url) {
            Err(failure("Portboard URL contains control characters"@))
        } else if after_prefix(url, "http://"@) is Some || after_prefix(url, "https://"@) is Some {
            Ok(url)
        } else {
            Err(
                failure(
                    "Portboard open-url only opens http and https URLs, got `"@ + url + "`"@,
                ),
            )
        },
    }
}

/// The text of bytes out of the environment, where there are any.
pub open spec fn optional_lossy(value: Option<Vec<u8>>) -> Option<Seq<char>> {
    match value {
        Some(bytes) => Some(lossy(bytes@)),
        None => None,
    }
}

/// Finds the URL that the open-url command is to open: its argument, or the URL that was
/// clicked. Terminal controls are refused before anything echoes them.
pub fn run_open_url_command(argument: &Option<String>, clicked: &Option<Vec<u8>>) -> (result:
    Result<String, PortboardError>)
    ensures
        answer_text(result) == url_to_open(optional_text(*argument), optional_lossy(*clicked)),
{
    let url = match argument {
        Some(url) => url.clone(),
        None => match clicked {
            Some(bytes) => lossy_text(bytes.as_slice()),
            None => {
                return Err(
                    PortboardError::new(
                        "Portboard open-url needs a URL argument or HERDR_PLUGIN_CLICKED_URL".to_owned(),
                    ),
                );
            },
        },
    };
    if contains_control(url.as_str()) {
        return Err(PortboardError::new("Portboard URL contains control characters".to_owned()));
    }
    if starts_with(url.as_str(), "http://") || starts_with(url.as_str(), "https://") {
        Ok(url)
    } else {
        let mut message = "Portboard open-url only opens http and https URLs, got `".to_owned();
        message.append(url.as_str());
        message.append("`");
        Err(PortboardError::new(message))
    }
}

/// A URL that holds a terminal control is refused, and the refusal does not repeat it.
pub proof fn refused_controls_are_not_echoed(
    argument: Option<Seq<char>>,
    clicked: Option<Seq<char>>,
)
    requires
        match argument {
            Some(url) => has_control(url),
            None => clicked is Some && has_control(clicked->0),
        },
    ensures
        url_to_open(argument, clicked) is Err,
        !has_control(url_to_open(argument, clicked)->Err_0.message),
        url_to_open(argument, clicked)->Err_0.cause is None,
{
    reveal_strlit("Portboard URL contains control characters");
}

/// Writes what the open-url command prints.
pub fn write_opened_url(url: &str, outcome: UrlOpenOutcome) -> (result: String)
    ensures
        result@ == (match outcome {
            UrlOpenOutcome::OpenedLocally => "opened "@ + url@,
            UrlOpenOutcome::OfferedLink => url@
                + " (no local browser; ctrl-click it in a pane)"@,
        }),
{
    match outcome {
        UrlOpenOutcome::OpenedLocally => {
            let mut line = "opened ".to_owned();
            line.append(url);
            line
        },
        UrlOpenOutcome::OfferedLink => {
            let mut line = url.to_owned();
            line.append(" (no local browser; ctrl-click it in a pane)");
            line
        },
    }
}

/// How far the logs command has come: what is to be done next.
#[derive(Clone, Copy, Debug, PartialEq, Eq, Structural)]
pub enum LogsStep {
    /// Show the log file that the project declares.
    ShowProjectLog,
    /// Look for runs of the target.
    Scan,
    /// Look for the tab of the runs, and focus it.
    FocusTab,
    /// Look for the newest log of the dashboard; whether the target runs is known.
    FindLog { running: bool },
    /// Show the newest log of the dashboard.
    ShowDashboardLog,
    /// Say which tab was focused.
    ReportTab,
    /// Say that the output of the runs is with the terminal that started them.
    ExplainRuns,
    /// There is nothing to show.
    NotRunning,
}

/// What a step of the logs command gave.
#[derive(Clone, Copy, Debug, PartialEq, Eq, Structural)]
pub enum LogsEvent {
    Scanned { runs: usize },
    TabLookedFor { focused: bool },
    LogLookedFor { found: bool },
}

/// The first step for a target: a log file that the project declares wins.
pub fn first_logs_step(target: &LaunchTarget) -> (result: LogsStep)
    ensures
        result == (if target@.log_file is Some {
            LogsStep::ShowProjectLog
        } else {
            LogsStep::Scan
        }),
{
    if target.log_file.is_some() {
        LogsStep::ShowProjectLog
    } else {
        LogsStep::Scan
    }
}

/// What is done next, in a workspace or not. An event that does not belong to the step leaves
/// it as it is.
pub open spec fn logs_after(in_workspace: bool, step: LogsStep, event: LogsEvent) -> LogsStep {
    match (step, event) {
        (LogsStep::Scan, LogsEvent::Scanned { runs }) => if runs > 0 && in_workspace {
            LogsStep::FocusTab
        } else {
            LogsStep::FindLog { running: runs > 0 }
        },
        (LogsStep::FocusTab, LogsEvent::TabLookedFor { focused }) => if focused {
            LogsStep::ReportTab
        } else {
            LogsStep::FindLog { running: true }
        },
        (LogsStep::FindLog { running }, LogsEvent::LogLookedFor { found }) => if found {
            LogsStep::ShowDashboardLog
        } else if running {
            LogsStep::ExplainRuns
        } else {
            LogsStep::NotRunning
        },
        _ => step,
    }
}

/// Decides where the logs command finds what it shows: says what is done next.
pub fn run_logs_command(in_workspace: bool, step: LogsStep, event: LogsEvent) -> (result: LogsStep)
    ensures
        result == logs_after(in_workspace, step, event),
{
    match (step, event) {
        (LogsStep::Scan, LogsEvent::Scanned { runs }) => {
            if runs > 0 && in_workspace {
                LogsStep::FocusTab
            } else {
                LogsStep::FindLog { running: runs > 0 }
            }
        },
        (LogsStep::FocusTab, LogsEvent::TabLookedFor { focused }) => {
            if focused {
                LogsStep::ReportTab
            } else {
                LogsStep::FindLog { running: true }
            }
        },
        (LogsStep::FindLog { running }, LogsEvent::LogLookedFor { found }) => {
            if found {
                LogsStep::ShowDashboardLog
            } else if running {
                LogsStep::ExplainRuns
            } else {
                LogsStep::NotRunning
            }
        },
        (step, _) => step,
    }
}

/// Where the search for a log stands after some events, for a target without a log file of its
/// own.
pub open spec fn logs_run(in_workspace: bool, events: Seq<LogsEvent>) -> LogsStep
    decreases events.len(),
{
    if events.len() == 0 {
        LogsStep::Scan
    } else {
        logs_after(in_workspace, logs_run(in_workspace, events.drop_last()), events.last())
    }
}

/// A log of the dashboard that was found is shown, whether the target still runs or not; a
/// target is said not to run only where neither a run nor a log was found, and its runs are
/// explained only where no log was found.
pub proof fn logs_outlive_runs(in_workspace: bool, events: Seq<LogsEvent>)
    ensures
        logs_run(in_workspace, events) is FindLog ==> logs_run(
            in_workspace,
            events.push(LogsEvent::LogLookedFor { found: true }),
        ) == LogsStep::ShowDashboardLog,
        logs_run(in_workspace, events) is NotRunning ==> events.contains(
            LogsEvent::Scanned { runs: 0 },
        ) && events.contains(LogsEvent::LogLookedFor { found: false }),
        logs_run(in_workspace, events) is ExplainRuns ==> events.contains(
            LogsEvent::LogLookedFor { found: false },
        ),
        logs_run(in_workspace, events) == (LogsStep::FindLog { running: false })
            ==> events.contains(LogsEvent::Scanned { runs: 0 }),
    decreases events.len(),
{
    let more = events.push(LogsEvent::LogLookedFor { found: true });
    assert(more.drop_last() =~= events);
    if events.len() > 0 {
        logs_outlive_runs(in_workspace, events.drop_last());
        lemma_seen(events, LogsEvent::Scanned { runs: 0 });
        lemma_seen(events, LogsEvent::LogLookedFor { found: false });
    }
}

/// The lines for some runs whose output is with the terminal that started them.
pub open spec fn plain_run_lines(runs: Seq<RunText>) -> Seq<Seq<char>> {
    Seq::new(
        runs.len(),
        |i: int| "  pid "@ + decimal(runs[i].pid as nat) + ": "@ + joined(runs[i].argv, " "@),
    )
}

/// Writes what the logs command says of runs without a log.
pub fn explain_runs(target_id: &str, runs: &Vec<LaunchTargetProcess>) -> (result: Vec<String>)
    ensures
        texts(result@) == seq![
            about_target(target_id@, " is running without Portboard-owned logs:"@),
        ] + plain_run_lines(run_texts(runs@)) + seq![
            "Its output is attached to the terminal that started it."@,
        ],
{
    let ghost all = run_texts(runs@);
    let ghost first = seq![
        about_target(target_id@, " is running without Portboard-owned logs:"@),
    ];
    let mut lines = no_texts();
    let message = target_message(target_id, " is running without Portboard-owned logs:");
    push_text(&mut lines, message.as_str());
    let mut index: usize = 0;
    proof {
        assert(texts(lines@) =~= first + plain_run_lines(all).take(0));
    }
    while index < runs.len()
        invariant
            index <= runs.len(),
            all == run_texts(runs@),
            texts(lines@) == first + plain_run_lines(all).take(index as int),
        decreases runs.len() - index,
    {
        proof {
            assert(all[index as int] == runs@[index as int]@);
        }
        let mut line = "  pid ".to_owned();
        push_decimal(&mut line, runs[index].pid as u64);
        line.append(": ");
        let command = join(&runs[index].argv, " ");
        line.append(command.as_str());
        push_text(&mut lines, line.as_str());
        index += 1;
        proof {
            assert(texts(lines@) =~= first + plain_run_lines(all).take(index as int));
        }
    }
    push_text(&mut lines, "Its output is attached to the terminal that started it.");
    proof {
        assert(texts(lines@) =~= first + plain_run_lines(all) + seq![
            "Its output is attached to the terminal that started it."@,
        ]);
    }
    lines
}

/// Writes what the logs command says once it focused the tab of a run.
pub fn report_log_tab(target_id: &str, tab_id: &str) -> (result: String)
    ensures
        result@ == about_target(
            target_id@,
            " logs live in Herdr tab "@ + tab_id@ + "; focused it"@,
        ),
{
    let mut rest = " logs live in Herdr tab ".to_owned();
    rest.append(tab_id);
    rest.append("; focused it");
    target_message(target_id, rest.as_str())
}

/// Why there is nothing to show of a target.
pub fn not_running(target_id: &str) -> (result: PortboardError)
    ensures
        result@ == failure(about_target(target_id@, " is not running"@)),
{
    PortboardError::new(target_message(target_id, " is not running"))
}

/// What is known of a log file that the project declares: whether it is a file, and where the
/// worktree and the file lie once links are followed, or why that is not known.
#[derive(Debug, PartialEq, Eq)]
pub struct ProjectLog {
    pub is_file: bool,
    pub root: Result<Vec<u8>, String>,
    pub resolved: Result<Vec<u8>, String>,
}

/// Why a log file that the project declares is not shown, where it is not.
pub open spec fn project_log_fault(
    target_id: Seq<char>,
    root_shown: Seq<char>,
    log_shown: Seq<char>,
    log: ProjectLog,
) -> Option<ErrorText> {
    if !log.is_file {
        Some(failure(about_target(target_id, " log does not exist at "@ + log_shown)))
    } else {
        match (log.root, log.resolved) {
            (Err(cause), _) => Some(
                ErrorText {
                    message: "Portboard could not resolve worktree "@ + root_shown,
                    cause: Some(cause@),
                },
            ),
            (Ok(_), Err(cause)) => Some(
                ErrorText {
                    message: "Portboard could not resolve "@ + log_shown,
                    cause: Some(cause@),
                },
            ),
            (Ok(root), Ok(resolved)) => if lies_below(resolved@, root@) {
                None
            } else {
                Some(
                    failure(
                        about_target(
                            target_id,
                            " log resolves outside the worktree: "@ + log_shown,
                        ),
                    ),
                )
            },
        }
    }
}

/// Requires that a log file which the project declares lies in the worktree.
pub fn check_project_log(target_id: &str, root_shown: &str, log_shown: &str, log: ProjectLog) -> (
    result: Result<(), PortboardError>)
    ensures
        refusal(result) == project_log_fault(target_id@, root_shown@, log_shown@, log),
{
    if !log.is_file {
        let mut rest = " log does not exist at ".to_owned();
        rest.append(log_shown);
        return Err(PortboardError::new(target_message(target_id, rest.as_str())));
    }
    match (log.root, log.resolved) {
        (Err(cause), _) => {
            let mut message = "Portboard could not resolve worktree ".to_owned();
            message.append(root_shown);
            Err(PortboardError::with_cause(message, cause))
        },
        (Ok(_), Err(cause)) => {
            let mut message = "Portboard could not resolve ".to_owned();
            message.append(log_shown);
            Err(PortboardError::with_cause(message, cause))
        },
        (Ok(root), Ok(resolved)) => {
            if below(resolved.as_slice(), root.as_slice()) {
                Ok(())
            } else {
                let mut rest = " log resolves outside the worktree: ".to_owned();
                rest.append(log_shown);
                Err(PortboardError::new(target_message(target_id, rest.as_str())))
            }
        },
    }
}

/// Writes the arguments of `tail` that stand before the path: the last lines, and whether the
/// file is followed by its name.
pub fn tail_arguments(line_count: u32, follow: bool) -> (result: Vec<String>)
    ensures
        texts(result@) == (if follow {
            seq!["-n"@, decimal(line_count as nat), "-F"@]
        } else {
            seq!["-n"@, decimal(line_count as nat)]
        }),
{
    let mut arguments = no_texts();
    push_text(&mut arguments, "-n");
    let count = decimal_text(line_count as u64);
    push_text(&mut arguments, count.as_str());
    if follow {
        push_text(&mut arguments, "-F");
    }
    proof {
        assert(texts(arguments@) =~= (if follow {
            seq!["-n"@, decimal(line_count as nat), "-F"@]
        } else {
            seq!["-n"@, decimal(line_count as nat)]
        }));
    }
    arguments
}

/// Requires that `tail` succeeded, given its status in words.
pub fn check_log_reader(succeeded: bool, status: &str) -> (result: Result<(), PortboardError>)
    ensures
        refusal(result) == (if succeeded {
            None
        } else {
            Some(failure("Portboard log reader exited with "@ + status@))
        }),
{
    if succeeded {
        return Ok(());
    }
    let mut message = "Portboard log reader exited with ".to_owned();
    message.append(status);
    Err(PortboardError::new(message))
}

/// Writes what the stop command prints, given which processes are being stopped.
pub fn run_stop_command(target_id: &str, stopped: &Vec<u32>) -> (result: String)
    ensures
        result@ == (if stopped@.len() == 0 {
            target_id@ + ": already stopped"@
        } else {
            target_id@ + ": stopping pid "@ + joined(decimals(stopped@), ", "@)
        }),
{
    let mut line = target_id.to_owned();
    if stopped.len() == 0 {
        line.append(": already stopped");
    } else {
        line.append(": stopping pid ");
        let pids = join(&decimals_of(stopped), ", ");
        line.append(pids.as_str());
    }
    line
}

/// What the help command prints, up to the end of its last line.
pub const USAGE: &'static str =
    "Portboard\n\nUsage:\n  portboard status [--json] [--cwd PATH]\n  portboard ps [--json] [--cwd PATH]\n  portboard open [TARGET] [--cwd PATH]\n  portboard ensure TARGET --herdr [--wait] [--cwd PATH]\n  portboard url TARGET [ENDPOINT] [--open] [--cwd PATH]\n  portboard open-url [URL]\n  portboard logs TARGET [--lines N] [--follow] [--cwd PATH]\n  portboard stop TARGET [--cwd PATH]\n  portboard serve [--cwd PATH] [--bind ADDRESS]\n  portboard panel\n";

/// Each end of the search for a log has its reason among the events: a tab is reported only in a
/// workspace where it was focused, a log only where one was found, runs are explained only where
/// some were seen and no log was found, and a target is said not to run only where neither was.
pub proof fn log_searches_report_what_was_seen(in_workspace: bool, events: Seq<LogsEvent>)
    ensures
        match logs_run(in_workspace, events) {
            LogsStep::ShowProjectLog => false,
            LogsStep::Scan => true,
            LogsStep::FocusTab => in_workspace && exists|runs: usize|
                runs > 0 && #[trigger] events.contains(LogsEvent::Scanned { runs }),
            LogsStep::FindLog { running } => if running {
                exists|runs: usize|
                    runs > 0 && #[trigger] events.contains(LogsEvent::Scanned { runs })
            } else {
                events.contains(LogsEvent::Scanned { runs: 0 })
            },
            LogsStep::ShowDashboardLog => events.contains(LogsEvent::LogLookedFor { found: true }),
            LogsStep::ReportTab => in_workspace && events.contains(
                LogsEvent::TabLookedFor { focused: true },
            ),
            LogsStep::ExplainRuns => events.contains(LogsEvent::LogLookedFor { found: false })
                && exists|runs: usize|
                runs > 0 && #[trigger] events.contains(LogsEvent::Scanned { runs }),
            LogsStep::NotRunning => events.contains(LogsEvent::LogLookedFor { found: false })
                && events.contains(LogsEvent::Scanned { runs: 0 }),
        },
    decreases events.len(),
{
    if events.len() > 0 {
        log_searches_report_what_was_seen(in_workspace, events.drop_last());
        lemma_all_seen(events);
        match events.last() {
            LogsEvent::Scanned { runs } => {
                assert(events.contains(LogsEvent::Scanned { runs }));
            },
            _ => {},
        }
    }
}

/// The search for a log comes to its end for everything that can be seen on the way: the tab of a
/// run in a workspace where it is found, else the newest log of the dashboard where there is
/// one, else what is known of the runs.
pub proof fn log_searches_come_to_their_end(
    in_workspace: bool,
    runs: usize,
    focused: bool,
    found: bool,
)
    ensures
        ({
            let scanned = logs_after(in_workspace, LogsStep::Scan, LogsEvent::Scanned { runs });
            let tab = in_workspace && runs > 0;
            let looked = if tab {
                logs_after(in_workspace, scanned, LogsEvent::TabLookedFor { focused })
            } else {
                scanned
            };
            let ended = logs_after(in_workspace, looked, LogsEvent::LogLookedFor { found });
            &&& tab && focused ==> looked == LogsStep::ReportTab
            &&& !(tab && focused) && found ==> ended == LogsStep::ShowDashboardLog
            &&& !(tab && focused) && !found && runs > 0 ==> ended == LogsStep::ExplainRuns
            &&& !(tab && focused) && !found && runs == 0 ==> ended == LogsStep::NotRunning
        }),
{
}

/// The search for a log moves on exactly where the event is the one that its step asks for: what
/// comes out of turn changes nothing, and an end is the end.
pub proof fn log_searches_move_in_turn(in_workspace: bool, step: LogsStep, event: LogsEvent)
    ensures
        logs_after(in_workspace, step, event) != step <==> match step {
            LogsStep::Scan => event is Scanned,
            LogsStep::FocusTab => event is TabLookedFor,
            LogsStep::FindLog { .. } => event is LogLookedFor,
            _ => false,
        },
{
}

/// Whether a word can be no option: it does not begin with a dash.
pub open spec fn is_no_option(word: Seq<char>) -> bool {
    word.len() == 0 || word[0] != '-'
}

proof fn lemma_no_option(word: Seq<char>)
    requires
        is_no_option(word),
    ensures
        forall|command: CommandName| #[trigger] role(command, word) == ArgumentRole::Word,
{
    reveal_strlit("--cwd");
    reveal_strlit("--json");
    reveal_strlit("--herdr");
    reveal_strlit("--wait");
    reveal_strlit("--open");
    reveal_strlit("--follow");
    reveal_strlit("-f");
    reveal_strlit("--lines");
    reveal_strlit("-n");
    reveal_strlit("--bind");
    assert("--cwd"@[0] == '-' && "--json"@[0] == '-' && "--herdr"@[0] == '-' && "--wait"@[0] == '-'
        && "--open"@[0] == '-' && "--follow"@[0] == '-' && "-f"@[0] == '-' && "--lines"@[0] == '-'
        && "-n"@[0] == '-' && "--bind"@[0] == '-');
}

/// Every command takes a directory behind `--cwd`, wherever that stands; the last one counts, and
/// without one behind it the command is refused.
pub proof fn directories_stand_behind_their_option(
    command: CommandName,
    arguments: Seq<Seq<char>>,
    at: int,
    found: FoundText,
)
    requires
        0 <= at < arguments.len(),
        arguments[at] == "--cwd"@,
    ensures
        at + 1 < arguments.len() ==> scanned(command, arguments, at, found) == scanned(
            command,
            arguments,
            at + 2,
            FoundText { cwd: Some(arguments[at + 1]), ..found },
        ),
        at + 1 == arguments.len() ==> scanned(command, arguments, at, found) is Err,
{
}

/// Each flag counts for its own commands, wherever it stands, and sets nothing else: `--json` for
/// the two lists, `--herdr` and `--wait` for ensuring, `--open` for URLs and `--follow` or `-f` for
/// logs. To any other command it is a word.
pub proof fn flags_count_for_their_commands(
    command: CommandName,
    arguments: Seq<Seq<char>>,
    at: int,
    found: FoundText,
)
    requires
        0 <= at < arguments.len(),
    ensures
        ({
            let flag = arguments[at];
            let result = scanned(command, arguments, at, found);
            &&& flag == "--json"@ && (command is Status || command is Ps) ==> result == scanned(
                command,
                arguments,
                at + 1,
                FoundText { json: true, ..found },
            )
            &&& flag == "--herdr"@ && command is Ensure ==> result == scanned(
                command,
                arguments,
                at + 1,
                FoundText { herdr: true, ..found },
            )
            &&& flag == "--wait"@ && command is Ensure ==> result == scanned(
                command,
                arguments,
                at + 1,
                FoundText { wait: true, ..found },
            )
            &&& flag == "--open"@ && command is Url ==> result == scanned(
                command,
                arguments,
                at + 1,
                FoundText { open: true, ..found },
            )
            &&& (flag == "--follow"@ || flag == "-f"@) && command is Logs ==> result == scanned(
                command,
                arguments,
                at + 1,
                FoundText { follow: true, ..found },
            )
            &&& flag == "--json"@ && !(command is Status || command is Ps) || flag == "--herdr"@ && !(
            command is Ensure) || flag == "--wait"@ && !(command is Ensure) || flag == "--open"@ && !(
            command is Url) || flag == "--follow"@ && !(command is Logs) || flag == "-f"@ && !(
            command is Logs) ==> role(command, flag) == ArgumentRole::Word
        }),
{
    lemma_options_differ();
}

proof fn lemma_options_differ()
    ensures
        "--cwd"@ != "--json"@ && "--cwd"@ != "--herdr"@ && "--cwd"@ != "--wait"@ && "--cwd"@
            != "--open"@ && "--cwd"@ != "--follow"@ && "--cwd"@ != "-f"@ && "--cwd"@ != "--lines"@
            && "--cwd"@ != "-n"@ && "--cwd"@ != "--bind"@,
        "--json"@ != "--herdr"@ && "--json"@ != "--wait"@ && "--json"@ != "--open"@ && "--json"@
            != "--follow"@ && "--json"@ != "-f"@ && "--json"@ != "--lines"@ && "--json"@ != "-n"@
            && "--json"@ != "--bind"@,
        "--herdr"@ != "--wait"@ && "--herdr"@ != "--open"@ && "--herdr"@ != "--follow"@
            && "--herdr"@ != "-f"@ && "--herdr"@ != "--lines"@ && "--herdr"@ != "-n"@ && "--herdr"@
            != "--bind"@,
        "--wait"@ != "--open"@ && "--wait"@ != "--follow"@ && "--wait"@ != "-f"@ && "--wait"@
            != "--lines"@ && "--wait"@ != "-n"@ && "--wait"@ != "--bind"@,
        "--open"@ != "--follow"@ && "--open"@ != "-f"@ && "--open"@ != "--lines"@ && "--open"@
            != "-n"@ && "--open"@ != "--bind"@,
        "--follow"@ != "--lines"@ && "--follow"@ != "-n"@ && "--follow"@ != "--bind"@ && "-f"@
            != "--lines"@ && "-f"@ != "-n"@ && "-f"@ != "--bind"@,
        "--lines"@ != "--bind"@ && "-n"@ != "--bind"@,
{
    reveal_strlit("--cwd");
    reveal_strlit("--json");
    reveal_strlit("--herdr");
    reveal_strlit("--wait");
    reveal_strlit("--open");
    reveal_strlit("--follow");
    reveal_strlit("-f");
    reveal_strlit("--lines");
    reveal_strlit("-n");
    reveal_strlit("--bind");
    assert("--cwd"@.len() == 5 && "-f"@.len() == 2 && "-n"@.len() == 2);
    assert("--json"@.len() == 6 && "--wait"@.len() == 6 && "--open"@.len() == 6 && "--bind"@.len()
        == 6);
    assert("--herdr"@.len() == 7 && "--lines"@.len() == 7 && "--follow"@.len() == 8);
    assert("--json"@[2] == 'j' && "--wait"@[2] == 'w' && "--open"@[2] == 'o' && "--bind"@[2]
        == 'b');
    assert("--herdr"@[2] == 'h' && "--lines"@[2] == 'l');
    assert("-f"@[1] == 'f' && "-n"@[1] == 'n');
}

/// The logs take a number of lines behind `--lines` or `-n`, which must be positive; the dashboard
/// takes an address behind `--bind`.
pub proof fn values_stand_behind_their_option(
    arguments: Seq<Seq<char>>,
    at: int,
    found: FoundText,
    count: u32,
)
    requires
        0 <= at < arguments.len(),
    ensures
        (arguments[at] == "--lines"@ || arguments[at] == "-n"@) && at + 1 < arguments.len()
            && number_value(arguments[at + 1], 10, u32::MAX as nat) == Some(count as nat) && count
            > 0 ==> scanned(CommandName::Logs, arguments, at, found) == scanned(
            CommandName::Logs,
            arguments,
            at + 2,
            FoundText { line_count: count, ..found },
        ),
        (arguments[at] == "--lines"@ || arguments[at] == "-n"@) && (at + 1 == arguments.len()
            || number_value(arguments[at + 1], 10, u32::MAX as nat) is None || number_value(
            arguments[at + 1],
            10,
            u32::MAX as nat,
        ) == Some(0nat)) ==> scanned(CommandName::Logs, arguments, at, found) is Err,
        arguments[at] == "--bind"@ && at + 1 < arguments.len() ==> scanned(
            CommandName::Serve,
            arguments,
            at,
            found,
        ) == scanned(
            CommandName::Serve,
            arguments,
            at + 2,
            FoundText { bind: Some(arguments[at + 1]), ..found },
        ),
        arguments[at] == "--bind"@ && at + 1 == arguments.len() ==> scanned(
            CommandName::Serve,
            arguments,
            at,
            found,
        ) is Err,
{
    lemma_options_differ();
}

/// A word that is no option is taken, behind the words before it, by the commands that name a
/// target: one each, and for URLs as many as there are; the lists and the dashboard take none.
pub proof fn words_name_targets(
    command: CommandName,
    arguments: Seq<Seq<char>>,
    at: int,
    found: FoundText,
)
    requires
        0 <= at < arguments.len(),
        is_no_option(arguments[at]),
    ensures
        command is Status || command is Ps || command is Serve ==> scanned(
            command,
            arguments,
            at,
            found,
        ) is Err,
        !(command is Status || command is Ps || command is Serve || command is Url)
            && found.words.len() > 0 ==> scanned(command, arguments, at, found) is Err,
        command is Url || !(command is Status || command is Ps || command is Serve)
            && found.words.len() == 0 ==> scanned(command, arguments, at, found) == scanned(
            command,
            arguments,
            at + 1,
            FoundText { words: found.words.push(arguments[at]), ..found },
        ),
{
    lemma_no_option(arguments[at]);
}

/// What is found makes the command exactly where its target is named, ensuring is asked for in
/// Herdr, and a URL has one endpoint at most; nothing that was found is lost.
pub proof fn commands_carry_what_was_found(found: FoundText)
    ensures
        asked(CommandName::Status, found) == Ok::<_, ErrorText>(
            CommandText::Status { json: found.json, cwd: found.cwd },
        ),
        asked(CommandName::Ps, found) == Ok::<_, ErrorText>(
            CommandText::Ps { json: found.json, cwd: found.cwd },
        ),
        asked(CommandName::Serve, found) == Ok::<_, ErrorText>(
            CommandText::Serve { bind: found.bind, cwd: found.cwd },
        ),
        found.words.len() == 0 ==> asked(CommandName::Open, found) == Ok::<_, ErrorText>(
            CommandText::Open { requested_id: None, cwd: found.cwd },
        ) && asked(CommandName::Ensure, found) is Err && asked(CommandName::Url, found) is Err
            && asked(CommandName::Logs, found) is Err && asked(CommandName::Stop, found) is Err,
        found.words.len() > 0 ==> asked(CommandName::Open, found) == Ok::<_, ErrorText>(
            CommandText::Open { requested_id: Some(found.words[0]), cwd: found.cwd },
        ) && asked(CommandName::Stop, found) == Ok::<_, ErrorText>(
            CommandText::Stop { target_id: found.words[0], cwd: found.cwd },
        ) && asked(CommandName::Logs, found) == Ok::<_, ErrorText>(
            CommandText::Logs {
                target_id: found.words[0],
                line_count: found.line_count,
                follow: found.follow,
                cwd: found.cwd,
            },
        ),
        found.words.len() > 0 && found.herdr ==> asked(CommandName::Ensure, found) == Ok::<
            _,
            ErrorText,
        >(CommandText::Ensure { target_id: found.words[0], wait: found.wait, cwd: found.cwd }),
        !found.herdr ==> asked(CommandName::Ensure, found) is Err,
        found.words.len() == 1 ==> asked(CommandName::Url, found) == Ok::<_, ErrorText>(
            CommandText::Url {
                target_id: found.words[0],
                endpoint_id: None,
                open: found.open,
                cwd: found.cwd,
            },
        ),
        found.words.len() == 2 ==> asked(CommandName::Url, found) == Ok::<_, ErrorText>(
            CommandText::Url {
                target_id: found.words[0],
                endpoint_id: Some(found.words[1]),
                open: found.open,
                cwd: found.cwd,
            },
        ),
        found.words.len() > 2 ==> asked(CommandName::Url, found) is Err,
{
}

/// A command line is read from its second word on, with nothing found before: no flag, no
/// directory, no word, and two hundred lines of a log.
pub proof fn command_lines_begin_with_their_command(
    arguments: Seq<Seq<char>>,
    command: CommandName,
)
    requires
        arguments.len() > 0,
        arguments[0] == match command {
            CommandName::Status => "status"@,
            CommandName::Ps => "ps"@,
            CommandName::Open => "open"@,
            CommandName::Ensure => "ensure"@,
            CommandName::Url => "url"@,
            CommandName::Logs => "logs"@,
            CommandName::Stop => "stop"@,
            CommandName::Serve => "serve"@,
        },
    ensures
        requested(arguments) == (match scanned(
            command,
            arguments,
            1,
            FoundText {
                json: false,
                herdr: false,
                wait: false,
                open: false,
                follow: false,
                line_count: 200,
                cwd: None,
                bind: None,
                words: Seq::empty(),
            },
        ) {
            Ok(found) => asked(command, found),
            Err(error) => Err(error),
        }),
{
    lemma_commands_differ();
}

proof fn lemma_commands_differ()
    ensures
        "status"@ != "ps"@ && "status"@ != "open"@ && "status"@ != "ensure"@ && "status"@ != "url"@
            && "status"@ != "logs"@ && "status"@ != "stop"@ && "status"@ != "serve"@,
        "ps"@ != "open"@ && "ps"@ != "ensure"@ && "ps"@ != "url"@ && "ps"@ != "logs"@ && "ps"@
            != "stop"@ && "ps"@ != "serve"@,
        "open"@ != "ensure"@ && "open"@ != "url"@ && "open"@ != "logs"@ && "open"@ != "stop"@
            && "open"@ != "serve"@,
        "ensure"@ != "url"@ && "ensure"@ != "logs"@ && "ensure"@ != "stop"@ && "ensure"@
            != "serve"@,
        "url"@ != "logs"@ && "url"@ != "stop"@ && "url"@ != "serve"@,
        "logs"@ != "stop"@ && "logs"@ != "serve"@ && "stop"@ != "serve"@,
{
    reveal_strlit("status");
    reveal_strlit("ps");
    reveal_strlit("open");
    reveal_strlit("ensure");
    reveal_strlit("url");
    reveal_strlit("logs");
    reveal_strlit("stop");
    reveal_strlit("serve");
    assert("status"@[0] == 's' && "ps"@[0] == 'p' && "open"@[0] == 'o' && "ensure"@[0] == 'e'
        && "url"@[0] == 'u' && "logs"@[0] == 'l' && "stop"@[0] == 's' && "serve"@[0] == 's');
    assert("status"@.len() == 6 && "stop"@.len() == 4 && "serve"@.len() == 5);
}

/// A stop is asked for by the word and the target alone, and so is each other command that names
/// one; an option behind the target is read as one before it.
pub proof fn targets_are_asked_for_by_name(target_id: Seq<char>, endpoint_id: Seq<char>)
    requires
        is_no_option(target_id),
        is_no_option(endpoint_id),
    ensures
        requested(seq!["stop"@, target_id]) == Ok::<_, ErrorText>(
            CommandText::Stop { target_id, cwd: None },
        ),
        requested(seq!["open"@, target_id]) == Ok::<_, ErrorText>(
            CommandText::Open { requested_id: Some(target_id), cwd: None },
        ),
        requested(seq!["logs"@, target_id]) == Ok::<_, ErrorText>(
            CommandText::Logs { target_id, line_count: 200, follow: false, cwd: None },
        ),
        requested(seq!["url"@, target_id, endpoint_id]) == Ok::<_, ErrorText>(
            CommandText::Url { target_id, endpoint_id: Some(endpoint_id), open: false, cwd: None },
        ),
        requested(seq!["ensure"@, target_id]) is Err,
        requested(seq!["ensure"@, target_id, "--herdr"@]) == Ok::<_, ErrorText>(
            CommandText::Ensure { target_id, wait: false, cwd: None },
        ),
        requested(seq!["ensure"@, "--herdr"@, target_id]) == Ok::<_, ErrorText>(
            CommandText::Ensure { target_id, wait: false, cwd: None },
        ),
        requested(seq!["status"@, target_id]) is Err,
        requested(seq!["ps"@, target_id]) is Err,
        requested(seq!["serve"@, target_id]) is Err,
{
    lemma_commands_differ();
    lemma_options_differ();
    lemma_no_option(target_id);
    lemma_no_option(endpoint_id);
    reveal_with_fuel(scanned, 4);
    let none = nothing_found();
    let one = none.words.push(target_id);
    assert(one[0] == target_id);
    assert(one.push(endpoint_id)[0] == target_id && one.push(endpoint_id)[1] == endpoint_id);
}

/// The URL of a target is that of the endpoint that is named, or of its primary one where none is;
/// it is given exactly where the target runs, has metadata, and has that endpoint.
pub proof fn urls_are_of_current_endpoints(
    target_id: Seq<char>,
    endpoint_id: Option<Seq<char>>,
    runs: nat,
    loaded: Result<Option<MetadataText>, ErrorText>,
)
    ensures
        match chosen_url(target_id, endpoint_id, runs, loaded) {
            Ok(url) => runs > 0 && loaded is Ok && loaded->Ok_0 is Some && exists|i: int|
                0 <= i < loaded->Ok_0->0.endpoints.len() && (
                #[trigger] loaded->Ok_0->0.endpoints[i]).url == url && match endpoint_id {
                    Some(id) => loaded->Ok_0->0.endpoints[i].id == id,
                    None => loaded->Ok_0->0.endpoints[i].primary,
                },
            Err(_) => runs == 0 || loaded is Err || loaded->Ok_0 is None || forall|i: int|
                0 <= i < loaded->Ok_0->0.endpoints.len() ==> match endpoint_id {
                    Some(id) => (#[trigger] loaded->Ok_0->0.endpoints[i]).id != id,
                    None => !loaded->Ok_0->0.endpoints[i].primary,
                },
        },
        runs > 0 ==> (loaded matches Err(error) ==> chosen_url(
            target_id,
            endpoint_id,
            runs,
            loaded,
        ) == Err::<Seq<char>, _>(error)),
{
    if let Ok(Some(metadata)) = loaded {
        let endpoints = metadata.endpoints;
        the_first_primary_counts(endpoints);
        if let Some(id) = endpoint_id {
            endpoints_are_found_by_name(endpoints, id);
            if let Some(endpoint) = first_named(endpoints, id) {
                let i = choose|i: int|
                    0 <= i < endpoints.len() && #[trigger] endpoints[i] == endpoint && endpoint.id
                        == id && forall|j: int| 0 <= j < i ==> (#[trigger] endpoints[j]).id != id;
                assert(endpoints[i].url == endpoint.url);
            }
        } else if let Some(endpoint) = first_primary(endpoints) {
            let i = choose|i: int|
                0 <= i < endpoints.len() && #[trigger] endpoints[i] == endpoint && endpoint.primary
                    && forall|j: int| 0 <= j < i ==> !(#[trigger] endpoints[j]).primary;
            assert(endpoints[i].url == endpoint.url);
        }
    }
}

/// A URL is opened exactly where it is the argument, or was clicked where there is no argument,
/// begins as an HTTP or HTTPS one, and holds no control character.
pub proof fn only_web_urls_are_opened(
    argument: Option<Seq<char>>,
    clicked: Option<Seq<char>>,
    url: Seq<char>,
)
    ensures
        url_to_open(argument, clicked) == Ok::<_, ErrorText>(url) <==> (argument == Some(url)
            || argument is None && clicked == Some(url)) && !has_control(url) && exists|
            rest: Seq<char>,
        |
            url == #[trigger] ("http://"@ + rest) || url == "https://"@ + rest,
{
    if let Some(rest) = after_prefix(url, "http://"@) {
        prefixes_are_taken_off(url, "http://"@, rest);
        assert(url == "http://"@ + rest);
    }
    if let Some(rest) = after_prefix(url, "https://"@) {
        prefixes_are_taken_off(url, "https://"@, rest);
        let plain = "http://"@ + rest;
        assert(url == "https://"@ + rest);
    }
    assert forall|rest: Seq<char>|
        url == #[trigger] ("http://"@ + rest) || url == "https://"@ + rest implies after_prefix(
        url,
        "http://"@,
    ) is Some || after_prefix(url, "https://"@) is Some by {
        prefixes_are_taken_off(url, "http://"@, rest);
        prefixes_are_taken_off(url, "https://"@, rest);
    }
}

/// A log file that the project declares is shown exactly where it is a file that lies, once links
/// are followed, in the worktree.
pub proof fn project_logs_lie_in_the_worktree(
    target_id: Seq<char>,
    root_shown: Seq<char>,
    log_shown: Seq<char>,
    log: ProjectLog,
)
    ensures
        project_log_fault(target_id, root_shown, log_shown, log) is None <==> log.is_file
            && log.root is Ok && log.resolved is Ok && lies_below(
            log.resolved->Ok_0@,
            log.root->Ok_0@,
        ),
{
}

/// In the table of processes every command begins in the same column, behind the three others.
pub proof fn commands_stand_in_one_column(entries: Seq<InventoryText>, index: int)
    requires
        0 <= index < entries.len(),
    ensures
        ({
            let widths = table_widths(entries);
            process_line(entries, index).skip((widths.0 + widths.1 + widths.2 + 6) as int)
                == shortened(joined(entries[index].argv, " "@), 60)
        }),
        process_line(entries, index).take(decimal(entries[index].pid as nat).len() as int)
            == decimal(entries[index].pid as nat),
        process_lines(entries).len() == entries.len(),
{
    let count = entries.len() as int;
    let widths = table_widths(entries);
    columns_fit("PID"@, pid_column(entries), count);
    columns_fit("TARGET"@, target_column(entries), count);
    columns_fit("PORTS"@, port_column(entries), count);
    let pid = pid_column(entries)[index];
    let target = target_column(entries)[index];
    let ports = port_column(entries)[index];
    padding_adds_spaces(pid, widths.0);
    padding_adds_spaces(target, widths.1);
    padding_adds_spaces(ports, widths.2);
    reveal_strlit("  ");
    let command = shortened(joined(entries[index].argv, " "@), 60);
    let start = padded(pid, widths.0) + "  "@ + padded(target, widths.1) + "  "@ + padded(
        ports,
        widths.2,
    ) + "  "@;
    assert(start.len() == widths.0 + widths.1 + widths.2 + 6);
    assert(process_line(entries, index) =~= start + command);
    assert(process_line(entries, index).skip(start.len() as int) =~= command);
    assert(process_line(entries, index).take(pid.len() as int) =~= padded(pid, widths.0).take(
        pid.len() as int,
    ));
}

/// A line of the status begins with the label and tells the state: stopped, or the pids of all
/// runs, with a warning where there are several. The endpoints that the metadata names are shown
/// before the plain listeners, and nothing is shown where there are none.
pub proof fn status_lines_tell_state_and_endpoints(status: StatusText)
    ensures
        ({
            let start = "  "@ + padded(status.label, 24) + " "@;
            let listed = match status.state {
                StateText::Stopped => Seq::empty(),
                StateText::Running(runs) => Seq::new(
                    runs.len(),
                    |i: int| decimal(runs[i].pid as nat),
                ),
            };
            let state = match status.state {
                StateText::Stopped => "stopped"@,
                StateText::Running(runs) => if status.duplicate {
                    "running · DUPLICATE ("@ + decimal(runs.len()) + " instances) (pid "@ + joined(
                        listed,
                        ", "@,
                    ) + ")"@
                } else {
                    "running (pid "@ + joined(listed, ", "@) + ")"@
                },
            };
            &&& status_line(status).take((start + state).len() as int) == start + state
            &&& status.named_endpoints.len() == 0 && status.endpoints.len() == 0 ==> status_line(
                status,
            ) == start + state
            &&& status.named_endpoints.len() > 0 ==> endpoint_summary(status) == joined(
                Seq::new(
                    status.named_endpoints.len(),
                    |i: int|
                        status.named_endpoints[i].id + " "@ + status.named_endpoints[i].url,
                ),
                ", "@,
            )
            &&& status.named_endpoints.len() == 0 ==> endpoint_summary(status) == joined(
                Seq::new(
                    status.endpoints.len(),
                    |i: int|
                        status.endpoints[i].address + ":"@ + decimal(
                            status.endpoints[i].port as nat,
                        ),
                ),
                ", "@,
            )
            &&& endpoint_summary(status).len() > 0 ==> status_line(status) == start + state
                + " · "@ + endpoint_summary(status)
        }),
{
    let start = "  "@ + padded(status.label, 24) + " "@;
    if let StateText::Running(runs) = status.state {
        assert(decimals(run_pids(runs)) =~= Seq::new(
            runs.len(),
            |i: int| decimal(runs[i].pid as nat),
        ));
    }
    let head = start + state_words(status);
    assert(head.take(head.len() as int) =~= head);
    assert((head + " · "@ + endpoint_summary(status)).take(head.len() as int) =~= head);
    assert(names_shown(status.named_endpoints) =~= Seq::new(
        status.named_endpoints.len(),
        |i: int| status.named_endpoints[i].id + " "@ + status.named_endpoints[i].url,
    ));
    assert(addresses_shown(status.endpoints) =~= Seq::new(
        status.endpoints.len(),
        |i: int| status.endpoints[i].address + ":"@ + decimal(status.endpoints[i].port as nat),
    ));
}

/// The cells of the table of processes hold the targets that claim a process and its ports, and a
/// dash where there are none.
pub proof fn empty_cells_hold_a_dash(entries: Seq<InventoryText>, index: int)
    requires
        0 <= index < entries.len(),
    ensures
        entries[index].target_ids.len() == 0 ==> target_column(entries)[index] == "—"@,
        entries[index].target_ids.len() > 0 ==> target_column(entries)[index] == joined(
            entries[index].target_ids,
            ", "@,
        ),
        entries[index].endpoints.len() == 0 ==> port_column(entries)[index] == "—"@,
        entries[index].endpoints.len() > 0 ==> port_column(entries)[index] == joined(
            Seq::new(
                entries[index].endpoints.len(),
                |i: int| ":"@ + decimal(entries[index].endpoints[i].port as nat),
            ),
            " "@,
        ),
        pid_column(entries)[index] == decimal(entries[index].pid as nat),
{
    assert(ports_shown(entries[index].endpoints) =~= Seq::new(
        entries[index].endpoints.len(),
        |i: int| ":"@ + decimal(entries[index].endpoints[i].port as nat),
    ));
}

/// The other commands are told by their word alone, and a word that names none is refused.
pub proof fn unknown_commands_are_refused(arguments: Seq<Seq<char>>)
    requires
        arguments.len() > 0,
    ensures
        arguments[0] == "panel"@ ==> requested(arguments) == Ok::<_, ErrorText>(CommandText::Panel),
        arguments[0] == "plugin-open"@ ==> requested(arguments) == Ok::<_, ErrorText>(
            CommandText::PluginOpen,
        ),
        arguments[0] == "help"@ || arguments[0] == "--help"@ || arguments[0] == "-h"@ ==> requested(
            arguments,
        ) == Ok::<_, ErrorText>(CommandText::Help),
        arguments[0] == "open-url"@ ==> requested(arguments) == Ok::<_, ErrorText>(
            CommandText::OpenUrl {
                url: if arguments.len() > 1 {
                    Some(arguments[1])
                } else {
                    None
                },
            },
        ),
        !seq![
            "status"@,
            "ps"@,
            "open"@,
            "ensure"@,
            "url"@,
            "logs"@,
            "stop"@,
            "serve"@,
            "open-url"@,
            "panel"@,
            "plugin-open"@,
            "help"@,
            "--help"@,
            "-h"@,
        ].contains(arguments[0]) ==> requested(arguments) is Err,
{
    let known = seq![
        "status"@,
        "ps"@,
        "open"@,
        "ensure"@,
        "url"@,
        "logs"@,
        "stop"@,
        "serve"@,
        "open-url"@,
        "panel"@,
        "plugin-open"@,
        "help"@,
        "--help"@,
        "-h"@,
    ];
    assert(known[0] == "status"@ && known[1] == "ps"@ && known[2] == "open"@ && known[3]
        == "ensure"@ && known[4] == "url"@ && known[5] == "logs"@ && known[6] == "stop"@ && known[7]
        == "serve"@ && known[8] == "open-url"@ && known[9] == "panel"@ && known[10]
        == "plugin-open"@ && known[11] == "help"@ && known[12] == "--help"@ && known[13] == "-h"@);
    reveal_strlit("status");
    reveal_strlit("ps");
    reveal_strlit("open");
    reveal_strlit("ensure");
    reveal_strlit("url");
    reveal_strlit("logs");
    reveal_strlit("stop");
    reveal_strlit("serve");
    reveal_strlit("open-url");
    reveal_strlit("panel");
    reveal_strlit("plugin-open");
    reveal_strlit("help");
    reveal_strlit("--help");
    reveal_strlit("-h");
    assert("status"@.len() == 6 && "ps"@.len() == 2 && "open"@.len() == 4 && "ensure"@.len() == 6
        && "url"@.len() == 3 && "logs"@.len() == 4 && "stop"@.len() == 4 && "serve"@.len() == 5
        && "open-url"@.len() == 8 && "panel"@.len() == 5 && "plugin-open"@.len() == 11
        && "help"@.len() == 4 && "--help"@.len() == 6 && "-h"@.len() == 2);
    assert("status"@[0] == 's' && "ps"@[0] == 'p' && "open"@[0] == 'o' && "ensure"@[0] == 'e'
        && "logs"@[0] == 'l' && "stop"@[0] == 's' && "serve"@[0] == 's' && "panel"@[0] == 'p'
        && "help"@[0] == 'h' && "--help"@[0] == '-' && "-h"@[0] == '-');
}

/// Every target has its line and every finding its warning, in order.
pub proof fn every_target_has_its_line(
    statuses: Seq<StatusText>,
    findings: Seq<Seq<char>>,
    runs: Seq<RunText>,
    index: int,
)
    ensures
        status_lines(statuses).len() == statuses.len(),
        0 <= index < statuses.len() ==> status_lines(statuses)[index] == status_line(
            statuses[index],
        ),
        warning_lines(findings).len() == findings.len(),
        0 <= index < findings.len() ==> warning_lines(findings)[index] == "  warning: "@
            + findings[index],
        plain_run_lines(runs).len() == runs.len(),
        0 <= index < runs.len() ==> plain_run_lines(runs)[index] == "  pid "@ + decimal(
            runs[index].pid as nat,
        ) + ": "@ + joined(runs[index].argv, " "@),
{
}

} // verus!
