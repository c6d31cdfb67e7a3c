//! Launch targets in the tabs of a Herdr workspace.
use vstd::prelude::*;
use vstd::string::*;
use vstd::utf8::*;

use crate::launch_target_config::LaunchTarget;
use crate::launch_target_processes::{
    carries_target_identity, descends_from, descent_follows_parents, lies_under, names_target,
    optional_bytes, process_descends_from, process_has_portboard_target_identity, run_texts,
    LaunchTargetProcess, ParentLink, RunText, CHAIN_LIMIT,
};
use crate::lossy_text::{lossy, lossy_text};
use crate::ordered::{lemma_all_seen, lemma_seen};
use crate::portboard_error::{failure, refusal, ErrorText, PortboardError};
use crate::text::{
    ascii_word_character, characters, is_ascii_word_character, join, joined, only, optional_text,
    pieces_at, pieces_part_at_separators, same_text, texts, trim, trimmed,
};

verus! {

/// Current workspace data injected when a Herdr plugin action is invoked.
#[derive(Debug, PartialEq, Eq)]
pub struct HerdrPluginContext {
    pub workspace_id: Option<String>,
    pub workspace_cwd: Option<String>,
    pub focused_pane_id: Option<String>,
}

/// How many nanoseconds the process of a launched target may take to appear. Manifests may run
/// preparation hooks (dependency installs, reapers) before the target command itself appears,
/// so the window is generous.
pub const LAUNCH_WINDOW: u64 = 10000000000;

/// A list with one more text.
pub(crate) fn push_text(list: &mut Vec<String>, text: &str)
    ensures
        texts(final(list)@) == texts(old(list)@).push(text@),
{
    let ghost before = texts(list@);
    list.push(text.to_owned());
    proof {
        assert(texts(list@) =~= before.push(text@));
    }
}

/// A list of no texts.
pub(crate) fn no_texts() -> (result: Vec<String>)
    ensures
        texts(result@) == Seq::<Seq<char>>::empty(),
{
    let result: Vec<String> = Vec::new();
    proof {
        assert(texts(result@) =~= Seq::<Seq<char>>::empty());
    }
    result
}

/// What Herdr is asked to do to open the panel of a workspace.
pub open spec fn panel_arguments(
    plugin_id: Seq<char>,
    workspace_cwd: Seq<char>,
    workspace_id: Seq<char>,
) -> Seq<Seq<char>> {
    seq![
        "plugin"@,
        "pane"@,
        "open"@,
        "--plugin"@,
        plugin_id,
        "--entrypoint"@,
        "current"@,
        "--cwd"@,
        workspace_cwd,
        "--env"@,
        "PORTBOARD_WORKSPACE_ID="@ + workspace_id,
        "--focus"@,
    ]
}

/// What opening the panel of a workspace needs, or why it cannot be opened.
pub open spec fn panel_request(
    workspace_id: Option<Seq<char>>,
    workspace_cwd: Option<Seq<char>>,
    plugin_id: Option<Seq<char>>,
) -> Result<Seq<Seq<char>>, ErrorText> {
    match (workspace_id, workspace_cwd) {
        (None, _) => Err(
            failure("Portboard Herdr action did not receive a workspace id"@),
        ),
        (Some(_), None) => Err(
            failure("Portboard Herdr action did not receive a workspace cwd"@),
        ),
        (Some(id), Some(cwd)) => Ok(
            panel_arguments(
                match plugin_id {
                    Some(plugin) => plugin,
                    None => "portboard"@,
                },
                cwd,
                id,
            ),
        ),
    }
}

/// What a list of arguments that may be missing is.
pub open spec fn arguments_result(result: Result<Vec<String>, PortboardError>) -> Result<
    Seq<Seq<char>>,
    ErrorText,
> {
    match result {
        Ok(arguments) => Ok(texts(arguments@)),
        Err(error) => Err(error@),
    }
}

/// Opens the current-workspace Portboard popup from a Herdr plugin action: gives what Herdr is
/// asked to do.
pub fn open_current_workspace_plugin_panel(
    context: &HerdrPluginContext,
    plugin_id: &Option<String>,
) -> (result: Result<Vec<String>, PortboardError>)
    ensures
        arguments_result(result) == panel_request(
            optional_text(context.workspace_id),
            optional_text(context.workspace_cwd),
            optional_text(*plugin_id),
        ),
{
    let workspace_id = match &context.workspace_id {
        Some(id) => id,
        None => {
            return Err(
                PortboardError::new(
                    "Portboard Herdr action did not receive a workspace id".to_owned(),
                ),
            );
        },
    };
    let workspace_cwd = match &context.workspace_cwd {
        Some(cwd) => cwd,
        None => {
            return Err(
                PortboardError::new(
                    "Portboard Herdr action did not receive a workspace cwd".to_owned(),
                ),
            );
        },
    };
    let plugin = match plugin_id {
        Some(plugin) => plugin.clone(),
        None => "portboard".to_owned(),
    };
    let mut variable = "PORTBOARD_WORKSPACE_ID=".to_owned();
    variable.append(workspace_id.as_str());
    let mut list = no_texts();
    push_text(&mut list, "plugin");
    push_text(&mut list, "pane");
    push_text(&mut list, "open");
    push_text(&mut list, "--plugin");
    push_text(&mut list, plugin.as_str());
    push_text(&mut list, "--entrypoint");
    push_text(&mut list, "current");
    push_text(&mut list, "--cwd");
    push_text(&mut list, workspace_cwd.as_str());
    push_text(&mut list, "--env");
    push_text(&mut list, variable.as_str());
    push_text(&mut list, "--focus");
    proof {
        assert(texts(list@) =~= panel_arguments(plugin@, workspace_cwd@, workspace_id@));
    }
    Ok(list)
}

/// The workspace that two variables name: the first that is set counts, and an empty one names
/// none.
pub open spec fn workspace_of(
    own: Option<Seq<char>>,
    shared: Option<Seq<char>>,
) -> Option<Seq<char>> {
    let found = match own {
        Some(id) => Some(id),
        None => shared,
    };
    match found {
        Some(id) => if id.len() > 0 {
            Some(id)
        } else {
            None
        },
        None => None,
    }
}

/// Returns the workspace selected for a plugin pane or ordinary Herdr terminal, from
/// `PORTBOARD_WORKSPACE_ID` and `HERDR_WORKSPACE_ID`.
pub fn current_herdr_workspace_id(own: Option<String>, shared: Option<String>) -> (result: Option<
    String,
>)
    ensures
        optional_text(result) == workspace_of(optional_text(own), optional_text(shared)),
{
    let found = match own {
        Some(id) => Some(id),
        None => shared,
    };
    match found {
        Some(id) => {
            if id.as_str().is_empty() {
                None
            } else {
                Some(id)
            }
        },
        None => None,
    }
}

/// What Herdr is asked to do to create the tab of a target.
pub open spec fn tab_create_arguments(
    workspace_id: Seq<char>,
    cwd: Seq<char>,
    target_id: Seq<char>,
) -> Seq<Seq<char>> {
    seq![
        "tab"@,
        "create"@,
        "--workspace"@,
        workspace_id,
        "--cwd"@,
        cwd,
        "--label"@,
        target_id,
        "--env"@,
        "PORTBOARD_TARGET_ID="@ + target_id,
        "--no-focus"@,
    ]
}

/// Asks for the tab of a target.
pub fn create_tab(workspace_id: &str, cwd: &str, target: &LaunchTarget) -> (result: Vec<String>)
    ensures
        texts(result@) == tab_create_arguments(workspace_id@, cwd@, target@.id),
{
    let mut identity = "PORTBOARD_TARGET_ID=".to_owned();
    identity.append(target.id.as_str());
    let mut list = no_texts();
    push_text(&mut list, "tab");
    push_text(&mut list, "create");
    push_text(&mut list, "--workspace");
    push_text(&mut list, workspace_id);
    push_text(&mut list, "--cwd");
    push_text(&mut list, cwd);
    push_text(&mut list, "--label");
    push_text(&mut list, target.id.as_str());
    push_text(&mut list, "--env");
    push_text(&mut list, identity.as_str());
    push_text(&mut list, "--no-focus");
    proof {
        assert(texts(list@) =~= tab_create_arguments(workspace_id@, cwd@, target@.id));
    }
    list
}

/// Quotes the characters of an argument one by one: a single quote closes the word, is escaped,
/// and opens it again.
pub open spec fn quoted_body(argument: Seq<char>) -> Seq<char>
    decreases argument.len(),
{
    if argument.len() == 0 {
        Seq::empty()
    } else {
        (if argument[0] == '\'' {
            "'\\''"@
        } else {
            seq![argument[0]]
        }) + quoted_body(argument.skip(1))
    }
}

/// An argument in single quotes.
pub open spec fn shell_quoted(argument: Seq<char>) -> Seq<char> {
    "'"@ + quoted_body(argument) + "'"@
}

/// Quotes one argument as a POSIX shell word. Single quotes preserve every
/// character except the single quote itself, which closes the word, escapes
/// via `\'`, and reopens.
pub fn shell_quote(argument: &str) -> (result: String)
    ensures
        result@ == shell_quoted(argument@),
{
    let source = characters(argument);
    let mut quoted = "'".to_owned();
    let mut index: usize = 0;
    proof {
        assert(argument@.skip(0) =~= argument@);
    }
    while index < source.len()
        invariant
            index <= source.len(),
            source@ == argument@,
            "'"@ + quoted_body(argument@) == quoted@ + quoted_body(argument@.skip(index as int)),
        decreases source.len() - index,
    {
        let ghost rest = argument@.skip(index as int);
        let ghost before = quoted@;
        proof {
            assert(rest[0] == argument@[index as int]);
            assert(rest.skip(1) =~= argument@.skip(index + 1));
        }
        if source[index] == '\'' {
            quoted.append("'\\''");
        } else {
            quoted.push(source[index]);
        }
        proof {
            assert(quoted@ + quoted_body(rest.skip(1)) =~= before + quoted_body(rest));
        }
        index += 1;
    }
    proof {
        assert(argument@.skip(index as int).len() == 0);
        assert(quoted@ =~= "'"@ + quoted_body(argument@));
    }
    quoted.append("'");
    quoted
}

/// A character that a shell takes as it stands.
pub open spec fn is_plain_character(character: char) -> bool {
    is_ascii_word_character(character) || character == '-' || character == '_' || character == '.'
        || character == '/' || character == ':'
}

/// A word that a shell takes as it stands: not empty, and of plain characters.
pub open spec fn is_plain_word(word: Seq<char>) -> bool {
    word.len() > 0 && forall|i: int| 0 <= i < word.len() ==> is_plain_character(#[trigger] word[i])
}

/// A word with which a shell begins a compound command.
pub open spec fn is_reserved_word(word: Seq<char>) -> bool {
    ||| word == "if"@
    ||| word == "then"@
    ||| word == "else"@
    ||| word == "elif"@
    ||| word == "fi"@
    ||| word == "do"@
    ||| word == "done"@
    ||| word == "case"@
    ||| word == "esac"@
    ||| word == "while"@
    ||| word == "until"@
    ||| word == "for"@
    ||| word == "in"@
    ||| word == "select"@
    ||| word == "function"@
    ||| word == "time"@
    ||| word == "coproc"@
}

fn plain_word(word: &str) -> (result: bool)
    ensures
        result == is_plain_word(word@),
{
    let source = characters(word);
    let mut index: usize = 0;
    while index < source.len()
        invariant
            index <= source.len(),
            source@ == word@,
            forall|i: int| 0 <= i < index ==> is_plain_character(#[trigger] word@[i]),
        decreases source.len() - index,
    {
        let character = source[index];
        if !(ascii_word_character(character) || character == '-' || character == '_' || character
            == '.' || character == '/' || character == ':') {
            return false;
        }
        index += 1;
    }
    source.len() > 0
}

fn reserved_word(word: &str) -> (result: bool)
    ensures
        result == is_reserved_word(word@),
{
    same_text(word, "if") || same_text(word, "then") || same_text(word, "else") || same_text(
        word,
        "elif",
    ) || same_text(word, "fi") || same_text(word, "do") || same_text(word, "done") || same_text(
        word,
        "case",
    ) || same_text(word, "esac") || same_text(word, "while") || same_text(word, "until")
        || same_text(word, "for") || same_text(word, "in") || same_text(word, "select")
        || same_text(word, "function") || same_text(word, "time") || same_text(word, "coproc")
}

/// How an argument is written on a command line: quoted unless it is taken as it stands.
pub open spec fn shell_word(argument: Seq<char>) -> Seq<char> {
    if is_plain_word(argument) && !is_reserved_word(argument) {
        argument
    } else {
        shell_quoted(argument)
    }
}

/// Writes an argument on a command line.
pub fn write_shell_word(argument: &str) -> (result: String)
    ensures
        result@ == shell_word(argument@),
{
    if plain_word(argument) && !reserved_word(argument) {
        argument.to_owned()
    } else {
        shell_quote(argument)
    }
}

/// How the arguments of a command are written on a command line.
pub open spec fn shell_line(argv: Seq<Seq<char>>) -> Seq<Seq<char>> {
    Seq::new(argv.len(), |i: int| shell_word(argv[i]))
}

/// What Herdr is asked to do to run a command in a pane.
pub open spec fn pane_run_arguments(pane_id: Seq<char>, argv: Seq<Seq<char>>) -> Seq<Seq<char>> {
    seq!["pane"@, "run"@, pane_id] + shell_line(argv)
}

/// Asks for the command of a target in a pane. Herdr joins the arguments with spaces and lets
/// the pane's shell parse the line, so every argument is written so that it survives;
/// otherwise spaces and metacharacters split or reinterpret.
pub fn run_in_pane(pane_id: &str, target: &LaunchTarget) -> (result: Vec<String>)
    ensures
        texts(result@) == pane_run_arguments(pane_id@, target@.argv),
{
    let ghost argv = target@.argv;
    let mut list = no_texts();
    push_text(&mut list, "pane");
    push_text(&mut list, "run");
    push_text(&mut list, pane_id);
    let mut index: usize = 0;
    proof {
        assert(texts(list@) =~= seq!["pane"@, "run"@, pane_id@] + shell_line(argv).take(0));
    }
    while index < target.argv.len()
        invariant
            index <= target.argv.len(),
            argv == target@.argv,
            texts(list@) == seq!["pane"@, "run"@, pane_id@] + shell_line(argv).take(
                index as int,
            ),
        decreases target.argv.len() - index,
    {
        let word = write_shell_word(target.argv[index].as_str());
        let ghost before = texts(list@);
        push_text(&mut list, word.as_str());
        proof {
            assert(argv[index as int] == target.argv@[index as int]@);
            let line = shell_line(argv);
            assert(line.take(index + 1) =~= line.take(index as int).push(line[index as int]));
            assert(texts(list@) =~= seq!["pane"@, "run"@, pane_id@] + line.take(index + 1));
        }
        index += 1;
    }
    proof {
        assert(shell_line(argv).take(argv.len() as int) =~= shell_line(argv));
    }
    list
}

/// What a shell makes of a command line of words, quotes and escapes, from some point on: the
/// word that was begun, whether a quote is open, and the words before it. Nothing is made of
/// a line with an open quote or with characters that mean something else.
pub open spec fn shell_words(
    rest: Seq<char>,
    word: Option<Seq<char>>,
    quoted: bool,
    words: Seq<Seq<char>>,
) -> Option<Seq<Seq<char>>>
    decreases rest.len(),
{
    if rest.len() == 0 {
        if quoted {
            None
        } else {
            match word {
                Some(last) => Some(words.push(last)),
                None => Some(words),
            }
        }
    } else {
        let begun = match word {
            Some(begun) => begun,
            None => Seq::empty(),
        };
        if quoted {
            if rest[0] == '\'' {
                shell_words(rest.skip(1), Some(begun), false, words)
            } else {
                shell_words(rest.skip(1), Some(begun.push(rest[0])), true, words)
            }
        } else if rest[0] == ' ' {
            match word {
                Some(last) => shell_words(rest.skip(1), None, false, words.push(last)),
                None => shell_words(rest.skip(1), None, false, words),
            }
        } else if rest[0] == '\'' {
            shell_words(rest.skip(1), Some(begun), true, words)
        } else if rest[0] == '\\' {
            if rest.len() < 2 {
                None
            } else {
                shell_words(rest.skip(2), Some(begun.push(rest[1])), false, words)
            }
        } else if is_plain_character(rest[0]) {
            shell_words(rest.skip(1), Some(begun.push(rest[0])), false, words)
        } else {
            None
        }
    }
}

/// The shell of a pane makes of a command line exactly the arguments that were written on it.
pub proof fn arguments_survive_the_shell(argv: Seq<Seq<char>>)
    ensures
        shell_words(joined(shell_line(argv), " "@), None, false, Seq::empty()) == Some(argv),
{
    lemma_line(argv, Seq::empty());
    let line = joined(shell_line(argv), " "@);
    assert(line + Seq::<char>::empty() =~= line);
    if argv.len() > 0 {
        assert(argv.drop_last().push(argv.last()) =~= argv);
    } else {
        assert(argv =~= Seq::<Seq<char>>::empty());
    }
}

/// After a line of words the last one is begun and the others are whole.
proof fn lemma_line(argv: Seq<Seq<char>>, rest: Seq<char>)
    ensures
        argv.len() > 0 ==> shell_words(
            joined(shell_line(argv), " "@) + rest,
            None,
            false,
            Seq::empty(),
        ) == shell_words(rest, Some(argv.last()), false, argv.drop_last()),
        argv.len() == 0 ==> joined(shell_line(argv), " "@) + rest == rest,
    decreases argv.len(),
{
    let words = shell_line(argv);
    if argv.len() == 0 {
        assert(joined(words, " "@) + rest =~= rest);
    } else if argv.len() == 1 {
        assert(joined(words, " "@) == words[0]);
        lemma_word(argv[0], rest, Seq::empty());
        assert(argv.drop_last() =~= Seq::<Seq<char>>::empty());
    } else {
        let fewer = argv.drop_last();
        assert(shell_line(fewer) =~= words.drop_last());
        reveal_strlit(" ");
        let before = joined(words.drop_last(), " "@);
        let tail = shell_word(argv.last()) + rest;
        lemma_joined_last(words, " "@);
        assert(joined(words, " "@) + rest =~= before + (" "@ + tail));
        lemma_line(fewer, " "@ + tail);
        let spaced = " "@ + tail;
        assert(spaced[0] == ' ');
        assert(spaced.skip(1) =~= tail);
        assert(fewer.drop_last().push(fewer.last()) =~= fewer);
        lemma_word(argv.last(), rest, fewer);
    }
}

proof fn lemma_joined_last(parts: Seq<Seq<char>>, separator: Seq<char>)
    requires
        parts.len() >= 2,
    ensures
        joined(parts, separator) == joined(parts.drop_last(), separator) + separator
            + parts.last(),
{
}

/// One word at the start of what remains.
proof fn lemma_word(argument: Seq<char>, rest: Seq<char>, words: Seq<Seq<char>>)
    ensures
        shell_words(shell_word(argument) + rest, None, false, words) == shell_words(
            rest,
            Some(argument),
            false,
            words,
        ),
{
    if is_plain_word(argument) && !is_reserved_word(argument) {
        let line = argument + rest;
        assert(line[0] == argument[0]);
        assert(is_plain_character(argument[0]));
        assert(line.skip(1) =~= argument.skip(1) + rest);
        lemma_plain(argument.skip(1), rest, Seq::<char>::empty().push(argument[0]), words);
        assert(Seq::<char>::empty().push(argument[0]) + argument.skip(1) =~= argument);
    } else {
        reveal_strlit("'");
        let line = shell_quoted(argument) + rest;
        assert(line[0] == '\'');
        assert(line.skip(1) =~= quoted_body(argument) + ("'"@ + rest));
        lemma_quoted(argument, rest, Seq::empty(), words);
        assert(Seq::<char>::empty() + argument =~= argument);
    }
}

proof fn lemma_plain(
    argument: Seq<char>,
    rest: Seq<char>,
    begun: Seq<char>,
    words: Seq<Seq<char>>,
)
    requires
        forall|i: int| 0 <= i < argument.len() ==> is_plain_character(#[trigger] argument[i]),
    ensures
        shell_words(argument + rest, Some(begun), false, words) == shell_words(
            rest,
            Some(begun + argument),
            false,
            words,
        ),
    decreases argument.len(),
{
    if argument.len() == 0 {
        assert(argument + rest =~= rest);
        assert(begun + argument =~= begun);
    } else {
        let line = argument + rest;
        assert(line[0] == argument[0]);
        assert(line.skip(1) =~= argument.skip(1) + rest);
        lemma_plain(argument.skip(1), rest, begun.push(argument[0]), words);
        assert(begun.push(argument[0]) + argument.skip(1) =~= begun + argument);
    }
}

proof fn lemma_quoted(
    argument: Seq<char>,
    rest: Seq<char>,
    begun: Seq<char>,
    words: Seq<Seq<char>>,
)
    ensures
        shell_words(quoted_body(argument) + ("'"@ + rest), Some(begun), true, words)
            == shell_words(rest, Some(begun + argument), false, words),
    decreases argument.len(),
{
    reveal_strlit("'");
    let end = "'"@ + rest;
    if argument.len() == 0 {
        assert(quoted_body(argument) + end =~= end);
        assert(end[0] == '\'');
        assert(end.skip(1) =~= rest);
        assert(begun + argument =~= begun);
    } else {
        let tail = quoted_body(argument.skip(1)) + end;
        let line = quoted_body(argument) + end;
        let longer = begun.push(argument[0]);
        lemma_quoted(argument.skip(1), rest, longer, words);
        assert(longer + argument.skip(1) =~= begun + argument);
        if argument[0] == '\'' {
            reveal_strlit("'\\''");
            assert(line =~= "'\\''"@ + tail);
            assert(line[0] == '\'');
            let second = line.skip(1);
            assert(second[0] == '\\' && second[1] == '\'');
            let third = second.skip(2);
            assert(third[0] == '\'');
            assert(third.skip(1) =~= tail);
            assert(shell_words(line, Some(begun), true, words) == shell_words(
                second,
                Some(begun),
                false,
                words,
            ));
            assert(shell_words(second, Some(begun), false, words) == shell_words(
                third,
                Some(begun.push('\'')),
                false,
                words,
            ));
        } else {
            assert(line =~= seq![argument[0]] + tail);
            assert(line[0] == argument[0]);
            assert(line.skip(1) =~= tail);
        }
    }
}

/// What a pane runs: its shell, and the processes in its foreground.
#[derive(Debug, PartialEq, Eq)]
pub struct PaneProcesses {
    pub shell_pid: u32,
    pub foreground: Vec<u32>,
}

/// The first process of a list that is not the shell.
pub open spec fn first_command(foreground: Seq<u32>, shell_pid: u32) -> Option<u32>
    decreases foreground.len(),
{
    if foreground.len() == 0 {
        None
    } else if foreground[0] != shell_pid {
        Some(foreground[0])
    } else {
        first_command(foreground.skip(1), shell_pid)
    }
}

/// Resolves the pid of the command started in a pane. Right after
/// the run request the pane's foreground process is still its interactive
/// shell; reserving that shell would pin the launch reservation to a process
/// that outlives the target, so shell pids are skipped until the real command
/// appears.
pub fn foreground_process_pid(pane: &PaneProcesses) -> (result: Option<u32>)
    ensures
        result == first_command(pane.foreground@, pane.shell_pid),
{
    let mut index: usize = 0;
    proof {
        assert(pane.foreground@.skip(0) =~= pane.foreground@);
    }
    while index < pane.foreground.len()
        invariant
            index <= pane.foreground.len(),
            first_command(pane.foreground@, pane.shell_pid) == first_command(
                pane.foreground@.skip(index as int),
                pane.shell_pid,
            ),
        decreases pane.foreground.len() - index,
    {
        proof {
            let rest = pane.foreground@.skip(index as int);
            assert(rest[0] == pane.foreground@[index as int]);
            assert(rest.skip(1) =~= pane.foreground@.skip(index + 1));
        }
        if pane.foreground[index] != pane.shell_pid {
            return Some(pane.foreground[index]);
        }
        index += 1;
    }
    None
}

/// How far the launch of a target in a tab has come: what is to be done next.
#[derive(Clone, Copy, Debug, PartialEq, Eq, Structural)]
pub enum HerdrLaunchStep {
    /// Create the tab.
    CreateTab,
    /// Run the command in its pane.
    RunCommand,
    /// Look for the process of the command.
    FindProcess,
    /// Focus the tab.
    FocusTab { pid: u32 },
    /// Close the tab, whose command could not be run.
    CloseFailed,
    /// Close the tab, whose process did not appear.
    CloseUnidentified,
    /// The command runs.
    Launched { pid: u32 },
    /// The command could not be run.
    CommandFailed,
    /// The process of the command did not appear.
    Unidentified,
}

/// What a step of the launch of a target gave.
#[derive(Clone, Copy, Debug, PartialEq, Eq, Structural)]
pub enum HerdrLaunchEvent {
    Created,
    Ran { succeeded: bool },
    /// The process that was found, if any, and how much time is left to look for one.
    Looked { pid: Option<u32>, remaining: u64 },
    Focused,
    /// The tab was asked to close, whatever came of it.
    Closed,
}

/// What is done next. An event that does not belong to the step leaves it as it is.
pub open spec fn herdr_launch_after(
    focus_after_start: bool,
    step: HerdrLaunchStep,
    event: HerdrLaunchEvent,
) -> HerdrLaunchStep {
    match (step, event) {
        (HerdrLaunchStep::CreateTab, HerdrLaunchEvent::Created) => HerdrLaunchStep::RunCommand,
        (HerdrLaunchStep::RunCommand, HerdrLaunchEvent::Ran { succeeded }) => if succeeded {
            HerdrLaunchStep::FindProcess
        } else {
            HerdrLaunchStep::CloseFailed
        },
        (HerdrLaunchStep::FindProcess, HerdrLaunchEvent::Looked { pid, remaining }) => match pid {
            Some(pid) => if focus_after_start {
                HerdrLaunchStep::FocusTab { pid }
            } else {
                HerdrLaunchStep::Launched { pid }
            },
            None => if remaining == 0 {
                HerdrLaunchStep::CloseUnidentified
            } else {
                HerdrLaunchStep::FindProcess
            },
        },
        (HerdrLaunchStep::FocusTab { pid }, HerdrLaunchEvent::Focused) => {
            HerdrLaunchStep::Launched { pid }
        },
        (HerdrLaunchStep::CloseFailed, HerdrLaunchEvent::Closed) => HerdrLaunchStep::CommandFailed,
        (HerdrLaunchStep::CloseUnidentified, HerdrLaunchEvent::Closed) => {
            HerdrLaunchStep::Unidentified
        },
        _ => step,
    }
}

/// Starts one launch target in a dedicated tab of the current Herdr workspace: says what is
/// done next.
pub fn launch_target_in_herdr(
    step: HerdrLaunchStep,
    event: HerdrLaunchEvent,
    focus_after_start: bool,
) -> (result: HerdrLaunchStep)
    ensures
        result == herdr_launch_after(focus_after_start, step, event),
{
    match (step, event) {
        (HerdrLaunchStep::CreateTab, HerdrLaunchEvent::Created) => HerdrLaunchStep::RunCommand,
        (HerdrLaunchStep::RunCommand, HerdrLaunchEvent::Ran { succeeded }) => {
            if succeeded {
                HerdrLaunchStep::FindProcess
            } else {
                HerdrLaunchStep::CloseFailed
            }
        },
        (HerdrLaunchStep::FindProcess, HerdrLaunchEvent::Looked { pid, remaining }) => match pid {
            Some(pid) => {
                if focus_after_start {
                    HerdrLaunchStep::FocusTab { pid }
                } else {
                    HerdrLaunchStep::Launched { pid }
                }
            },
            None => {
                if remaining == 0 {
                    HerdrLaunchStep::CloseUnidentified
                } else {
                    HerdrLaunchStep::FindProcess
                }
            },
        },
        (HerdrLaunchStep::FocusTab { pid }, HerdrLaunchEvent::Focused) => {
            HerdrLaunchStep::Launched { pid }
        },
        (HerdrLaunchStep::CloseFailed, HerdrLaunchEvent::Closed) => HerdrLaunchStep::CommandFailed,
        (HerdrLaunchStep::CloseUnidentified, HerdrLaunchEvent::Closed) => {
            HerdrLaunchStep::Unidentified
        },
        (step, _) => step,
    }
}

/// Where the launch of a target stands after some events.
pub open spec fn herdr_launch_run(
    focus_after_start: bool,
    events: Seq<HerdrLaunchEvent>,
) -> HerdrLaunchStep
    decreases events.len(),
{
    if events.len() == 0 {
        HerdrLaunchStep::CreateTab
    } else {
        herdr_launch_after(
            focus_after_start,
            herdr_launch_run(focus_after_start, events.drop_last()),
            events.last(),
        )
    }
}

/// A launch that fails behind the creation of its tab has asked for the tab to be closed.
pub proof fn failed_launches_close_their_tab(
    focus_after_start: bool,
    events: Seq<HerdrLaunchEvent>,
)
    ensures
        herdr_launch_run(focus_after_start, events) is CommandFailed || herdr_launch_run(
            focus_after_start,
            events,
        ) is Unidentified ==> events.contains(HerdrLaunchEvent::Closed),
    decreases events.len(),
{
    if events.len() > 0 {
        failed_launches_close_their_tab(focus_after_start, events.drop_last());
        lemma_seen(events, HerdrLaunchEvent::Closed);
    }
}

/// Whether an event shows a process of the command.
pub open spec fn shows_command(event: HerdrLaunchEvent, pid: u32) -> bool {
    event matches HerdrLaunchEvent::Looked { pid: Some(found), .. } && found == pid
}

/// A launch ends well only with a process that was found, and its tab is focused only where
/// that was wanted and such a process was found.
pub proof fn launches_keep_the_focus_unless_asked(
    focus_after_start: bool,
    events: Seq<HerdrLaunchEvent>,
)
    ensures
        herdr_launch_run(focus_after_start, events) is FocusTab ==> focus_after_start,
        herdr_launch_run(focus_after_start, events) matches HerdrLaunchStep::FocusTab { pid }
            ==> exists|i: int| 0 <= i < events.len() && shows_command(#[trigger] events[i], pid),
        herdr_launch_run(focus_after_start, events) matches HerdrLaunchStep::Launched { pid }
            ==> exists|i: int| 0 <= i < events.len() && shows_command(#[trigger] events[i], pid),
    decreases events.len(),
{
    if events.len() > 0 {
        let fewer = events.drop_last();
        launches_keep_the_focus_unless_asked(focus_after_start, fewer);
        let found = match herdr_launch_run(focus_after_start, events) {
            HerdrLaunchStep::FocusTab { pid } => Some(pid),
            HerdrLaunchStep::Launched { pid } => Some(pid),
            _ => None,
        };
        if let Some(pid) = found {
            if exists|i: int| 0 <= i < fewer.len() && shows_command(#[trigger] fewer[i], pid) {
                let i = choose|i: int|
                    0 <= i < fewer.len() && shows_command(#[trigger] fewer[i], pid);
                assert(shows_command(events[i], pid));
            } else {
                assert(shows_command(events[events.len() - 1], pid));
            }
        }
    }
}

/// Why a launch failed, given what running the command said.
pub open spec fn herdr_launch_failure(
    step: HerdrLaunchStep,
    cause: Seq<char>,
) -> Option<ErrorText> {
    match step {
        HerdrLaunchStep::CommandFailed => Some(
            ErrorText {
                message: "Portboard Herdr launch could not start the target command"@,
                cause: Some(cause),
            },
        ),
        HerdrLaunchStep::Unidentified => Some(
            failure(
                "Portboard Herdr launch could not identify the target process; the new tab was closed"@,
            ),
        ),
        _ => None,
    }
}

/// Says why a launch failed, where it did.
pub fn describe_herdr_launch(step: HerdrLaunchStep, cause: String) -> (result: Option<
    PortboardError,
>)
    ensures
        crate::launch_target_readiness::optional_error(result) == herdr_launch_failure(
            step,
            cause@,
        ),
{
    match step {
        HerdrLaunchStep::CommandFailed => Some(
            PortboardError::with_cause(
                "Portboard Herdr launch could not start the target command".to_owned(),
                cause,
            ),
        ),
        HerdrLaunchStep::Unidentified => Some(
            PortboardError::new(
                "Portboard Herdr launch could not identify the target process; the new tab was closed".to_owned(),
            ),
        ),
        _ => None,
    }
}

/// A pane of the workspace: its tab, and its shell where that could be asked for.
#[derive(Debug, PartialEq, Eq)]
pub struct PaneShell {
    pub tab_id: String,
    pub shell_pid: Option<u32>,
}

/// Whether some run lies below the shell of a pane.
pub open spec fn hosts_run(
    shell_pid: Option<u32>,
    runs: Seq<RunText>,
    links: Seq<ParentLink>,
) -> bool {
    match shell_pid {
        Some(shell) => exists|i: int|
            0 <= i < runs.len() && descends_from(
                links,
                (#[trigger] runs[i]).pid,
                shell,
                CHAIN_LIMIT as nat,
            ),
        None => false,
    }
}

fn pane_hosts_run(
    shell_pid: Option<u32>,
    processes: &Vec<LaunchTargetProcess>,
    links: &Vec<ParentLink>,
) -> (result: bool)
    ensures
        result == hosts_run(shell_pid, run_texts(processes@), links@),
{
    let shell: u32 = match shell_pid {
        Some(shell) => shell,
        None => {
            return false;
        },
    };
    let ghost runs = run_texts(processes@);
    let mut index: usize = 0;
    while index < processes.len()
        invariant
            index <= processes.len(),
            runs == run_texts(processes@),
            shell_pid == Some(shell),
            forall|i: int|
                0 <= i < index ==> !descends_from(
                    links@,
                    (#[trigger] runs[i]).pid,
                    shell,
                    CHAIN_LIMIT as nat,
                ),
        decreases processes.len() - index,
    {
        proof {
            assert(runs[index as int] == processes@[index as int]@);
        }
        if process_descends_from(links, processes[index].pid, shell) {
            return true;
        }
        index += 1;
    }
    false
}

/// The tab of the first pane that hosts a run.
pub open spec fn hosting_tab(
    panes: Seq<PaneShell>,
    runs: Seq<RunText>,
    links: Seq<ParentLink>,
) -> Option<Seq<char>>
    decreases panes.len(),
{
    if panes.len() == 0 {
        None
    } else if hosts_run(panes[0].shell_pid, runs, links) {
        Some(panes[0].tab_id@)
    } else {
        hosting_tab(panes.skip(1), runs, links)
    }
}

/// Returns the Herdr tab containing one of the matching target processes.
pub fn launch_target_herdr_tab_id(
    panes: &Vec<PaneShell>,
    processes: &Vec<LaunchTargetProcess>,
    links: &Vec<ParentLink>,
) -> (result: Option<String>)
    ensures
        optional_text(result) == hosting_tab(panes@, run_texts(processes@), links@),
{
    let mut index: usize = 0;
    proof {
        assert(panes@.skip(0) =~= panes@);
    }
    while index < panes.len()
        invariant
            index <= panes.len(),
            hosting_tab(panes@, run_texts(processes@), links@) == hosting_tab(
                panes@.skip(index as int),
                run_texts(processes@),
                links@,
            ),
        decreases panes.len() - index,
    {
        proof {
            assert(panes@.skip(index as int)[0] == panes@[index as int]);
            assert(panes@.skip(index as int).skip(1) =~= panes@.skip(index + 1));
        }
        if pane_hosts_run(panes[index].shell_pid, processes, links) {
            return Some(panes[index].tab_id.clone());
        }
        index += 1;
    }
    None
}

/// Returns whether a target process belongs to a pane in the given Herdr workspace.
pub fn launch_target_runs_in_herdr(
    panes: &Vec<PaneShell>,
    processes: &Vec<LaunchTargetProcess>,
    links: &Vec<ParentLink>,
) -> (result: bool)
    ensures
        result == (hosting_tab(panes@, run_texts(processes@), links@) is Some),
{
    launch_target_herdr_tab_id(panes, processes, links).is_some()
}

/// What Herdr is asked to do to focus a tab.
pub open spec fn tab_focus_arguments(tab_id: Seq<char>) -> Seq<Seq<char>> {
    seq!["tab"@, "focus"@, tab_id]
}

/// What Herdr is asked to do to close a tab.
pub open spec fn tab_close_arguments(tab_id: Seq<char>) -> Seq<Seq<char>> {
    seq!["tab"@, "close"@, tab_id]
}

/// Focuses an explicit Herdr tab by identifier: gives what Herdr is asked to do.
pub fn focus_herdr_tab(tab_id: &str) -> (result: Vec<String>)
    ensures
        texts(result@) == tab_focus_arguments(tab_id@),
{
    let mut list = no_texts();
    push_text(&mut list, "tab");
    push_text(&mut list, "focus");
    push_text(&mut list, tab_id);
    proof {
        assert(texts(list@) =~= tab_focus_arguments(tab_id@));
    }
    list
}

/// Closes a Herdr tab after its Portboard-owned target has stopped: gives what Herdr is asked
/// to do.
pub fn close_launch_target_herdr_tab(tab_id: &str) -> (result: Vec<String>)
    ensures
        texts(result@) == tab_close_arguments(tab_id@),
{
    let mut list = no_texts();
    push_text(&mut list, "tab");
    push_text(&mut list, "close");
    push_text(&mut list, tab_id);
    proof {
        assert(texts(list@) =~= tab_close_arguments(tab_id@));
    }
    list
}

/// What an optional list of arguments is.
pub open spec fn optional_arguments(value: Option<Vec<String>>) -> Option<Seq<Seq<char>>> {
    match value {
        Some(list) => Some(texts(list@)),
        None => None,
    }
}

/// Focuses the Herdr tab that owns any of the matching launch target processes: gives what
/// Herdr is asked to do, where there is such a tab.
pub fn focus_launch_target_in_herdr(
    panes: &Vec<PaneShell>,
    processes: &Vec<LaunchTargetProcess>,
    links: &Vec<ParentLink>,
) -> (result: Option<Vec<String>>)
    ensures
        optional_arguments(result) == (match hosting_tab(
            panes@,
            run_texts(processes@),
            links@,
        ) {
            Some(tab_id) => Some(tab_focus_arguments(tab_id)),
            None => None,
        }),
{
    match launch_target_herdr_tab_id(panes, processes, links) {
        Some(tab_id) => Some(focus_herdr_tab(tab_id.as_str())),
        None => None,
    }
}

/// Whether a pane belongs to a target, and whether something runs in it.
#[derive(Clone, Copy, Debug, PartialEq, Eq, Structural)]
pub struct LaunchTargetPaneLiveness {
    pub portboard_owned: bool,
    pub has_foreground_command: bool,
}

/// What a pane is to a target: a pane that could not be asked about is foreign and busy.
pub open spec fn liveness_of(
    pane: Option<PaneProcesses>,
    shell_environment: Option<Seq<u8>>,
    target_id: Seq<char>,
) -> LaunchTargetPaneLiveness {
    match pane {
        Some(processes) => LaunchTargetPaneLiveness {
            portboard_owned: carries_target_identity(shell_environment, target_id),
            has_foreground_command: first_command(
                processes.foreground@,
                processes.shell_pid,
            ) is Some,
        },
        None => LaunchTargetPaneLiveness { portboard_owned: false, has_foreground_command: true },
    }
}

/// Tells what a pane is to a target, from what it runs and the environment of its shell.
pub fn pane_liveness(
    pane: &Option<PaneProcesses>,
    shell_environment: &Option<Vec<u8>>,
    target_id: &str,
) -> (result: LaunchTargetPaneLiveness)
    ensures
        result == liveness_of(*pane, optional_bytes(*shell_environment), target_id@),
{
    match pane {
        Some(processes) => LaunchTargetPaneLiveness {
            portboard_owned: process_has_portboard_target_identity(shell_environment, target_id),
            has_foreground_command: foreground_process_pid(processes).is_some(),
        },
        None => LaunchTargetPaneLiveness { portboard_owned: false, has_foreground_command: true },
    }
}

/// A tab may be reaped where every pane of it is an idle host shell of Portboard, and it has
/// one.
pub open spec fn is_reapable(panes: Seq<LaunchTargetPaneLiveness>) -> bool {
    panes.len() > 0 && forall|i: int|
        0 <= i < panes.len() ==> (#[trigger] panes[i]).portboard_owned
            && !panes[i].has_foreground_command
}

/// Decides whether a candidate tab may be reaped. Every pane must be an idle
/// Portboard-owned host shell, so user work in splits is never discarded and a
/// live run keeps its tab.
pub fn tab_is_reapable(panes: &[LaunchTargetPaneLiveness]) -> (result: bool)
    ensures
        result == is_reapable(panes@),
{
    let mut index: usize = 0;
    while index < panes.len()
        invariant
            index <= panes.len(),
            forall|i: int|
                0 <= i < index ==> (#[trigger] panes@[i]).portboard_owned
                    && !panes@[i].has_foreground_command,
        decreases panes.len() - index,
    {
        if !panes[index].portboard_owned || panes[index].has_foreground_command {
            return false;
        }
        index += 1;
    }
    panes.len() > 0
}

/// A tab of the workspace.
#[derive(Debug, PartialEq, Eq)]
pub struct TabRecord {
    pub tab_id: String,
    pub label: String,
}

/// A pane of the workspace: its tab, and what it is to the target.
#[derive(Debug, PartialEq, Eq)]
pub struct PaneRecord {
    pub tab_id: String,
    pub liveness: LaunchTargetPaneLiveness,
}

/// What the panes of a tab are to the target, in order.
pub open spec fn tab_panes(
    panes: Seq<PaneRecord>,
    tab_id: Seq<char>,
) -> Seq<LaunchTargetPaneLiveness>
    decreases panes.len(),
{
    if panes.len() == 0 {
        Seq::empty()
    } else {
        let before = tab_panes(panes.drop_last(), tab_id);
        if panes.last().tab_id@ == tab_id {
            before.push(panes.last().liveness)
        } else {
            before
        }
    }
}

fn panes_of_tab(panes: &Vec<PaneRecord>, tab_id: &str) -> (result: Vec<LaunchTargetPaneLiveness>)
    ensures
        result@ == tab_panes(panes@, tab_id@),
{
    let mut result: Vec<LaunchTargetPaneLiveness> = Vec::new();
    let mut index: usize = 0;
    while index < panes.len()
        invariant
            index <= panes.len(),
            result@ == tab_panes(panes@.take(index as int), tab_id@),
        decreases panes.len() - index,
    {
        proof {
            assert(panes@.take(index + 1).drop_last() =~= panes@.take(index as int));
            assert(panes@.take(index + 1).last() == panes@[index as int]);
        }
        if same_text(panes[index].tab_id.as_str(), tab_id) {
            result.push(panes[index].liveness);
        }
        index += 1;
    }
    proof {
        assert(panes@.take(panes.len() as int) =~= panes@);
    }
    result
}

/// Whether a tab was left behind by a target: its label is the target's, and it may be reaped.
pub open spec fn is_stale_tab(
    tab: TabRecord,
    panes: Seq<PaneRecord>,
    target_id: Seq<char>,
) -> bool {
    tab.label@ == target_id && is_reapable(tab_panes(panes, tab.tab_id@))
}

/// The tabs among the first `count` that a target left behind.
pub open spec fn stale_tabs(
    tabs: Seq<TabRecord>,
    panes: Seq<PaneRecord>,
    target_id: Seq<char>,
    count: int,
) -> Seq<Seq<char>>
    decreases count,
{
    if count <= 0 {
        Seq::empty()
    } else {
        let before = stale_tabs(tabs, panes, target_id, count - 1);
        if is_stale_tab(tabs[count - 1], panes, target_id) {
            before.push(tabs[count - 1].tab_id@)
        } else {
            before
        }
    }
}

/// Finds leftover Herdr tabs that a launch target left behind after dying on
/// its own (crash, Ctrl+C in the pane, external kill). A tab is stale when its
/// label matches the target id and every pane in it is a Portboard-owned host
/// shell with no foreground command; busy or foreign panes are never touched.
/// Returns the tab ids to close.
pub fn reap_stale_launch_target_tabs(
    tabs: &Vec<TabRecord>,
    panes: &Vec<PaneRecord>,
    target: &LaunchTarget,
) -> (result: Vec<String>)
    ensures
        texts(result@) == stale_tabs(tabs@, panes@, target@.id, tabs@.len() as int),
{
    let mut result = no_texts();
    let mut index: usize = 0;
    while index < tabs.len()
        invariant
            index <= tabs.len(),
            texts(result@) == stale_tabs(tabs@, panes@, target@.id, index as int),
        decreases tabs.len() - index,
    {
        let tab = &tabs[index];
        if same_text(tab.label.as_str(), target.id.as_str()) {
            let liveness = panes_of_tab(panes, tab.tab_id.as_str());
            if tab_is_reapable(liveness.as_slice()) {
                push_text(&mut result, tab.tab_id.as_str());
            }
        }
        index += 1;
    }
    result
}

/// No tab is reaped in which something runs or in which a pane is not Portboard's.
pub proof fn busy_and_foreign_tabs_are_kept(
    tabs: Seq<TabRecord>,
    panes: Seq<PaneRecord>,
    target_id: Seq<char>,
    count: int,
    tab_id: Seq<char>,
)
    requires
        0 <= count <= tabs.len(),
        stale_tabs(tabs, panes, target_id, count).contains(tab_id),
    ensures
        forall|i: int|
            0 <= i < panes.len() && (#[trigger] panes[i]).tab_id@ == tab_id
                ==> panes[i].liveness.portboard_owned && !panes[i].liveness.has_foreground_command,
    decreases count,
{
    if count > 0 {
        let before = stale_tabs(tabs, panes, target_id, count - 1);
        if before.contains(tab_id) {
            busy_and_foreign_tabs_are_kept(tabs, panes, target_id, count - 1, tab_id);
        } else {
            assert(tabs[count - 1].tab_id@ == tab_id);
            assert forall|i: int|
                0 <= i < panes.len() && (#[trigger] panes[i]).tab_id@
                    == tab_id implies panes[i].liveness.portboard_owned
                && !panes[i].liveness.has_foreground_command by {
                lemma_pane_listed(panes, tab_id, i);
            }
        }
    }
}

proof fn lemma_pane_listed(panes: Seq<PaneRecord>, tab_id: Seq<char>, index: int)
    requires
        0 <= index < panes.len(),
        panes[index].tab_id@ == tab_id,
    ensures
        exists|k: int|
            0 <= k < tab_panes(panes, tab_id).len() && #[trigger] tab_panes(panes, tab_id)[k]
                == panes[index].liveness,
    decreases panes.len(),
{
    let before = tab_panes(panes.drop_last(), tab_id);
    let all = tab_panes(panes, tab_id);
    if index == panes.len() - 1 {
        assert(all[before.len() as int] == panes[index].liveness);
    } else {
        lemma_pane_listed(panes.drop_last(), tab_id, index);
        let k = choose|k: int|
            0 <= k < before.len() && #[trigger] before[k] == panes[index].liveness;
        assert(all[k] == panes[index].liveness);
    }
}

/// A tab whose target was stopped is closed where nothing runs in it any more.
pub open spec fn is_idle(panes: Seq<LaunchTargetPaneLiveness>) -> bool {
    forall|i: int| 0 <= i < panes.len() ==> !(#[trigger] panes[i]).has_foreground_command
}

/// Decides whether the tab of a stopped target is closed: only where no pane of it runs
/// anything but its shell.
pub fn close_idle_launch_target_tab(panes: &Vec<PaneRecord>, tab_id: &str) -> (result: bool)
    ensures
        result == is_idle(tab_panes(panes@, tab_id@)),
{
    let liveness = panes_of_tab(panes, tab_id);
    let mut index: usize = 0;
    while index < liveness.len()
        invariant
            index <= liveness.len(),
            liveness@ == tab_panes(panes@, tab_id@),
            forall|i: int|
                0 <= i < index ==> !(#[trigger] liveness@[i]).has_foreground_command,
        decreases liveness.len() - index,
    {
        if liveness[index].has_foreground_command {
            return false;
        }
        index += 1;
    }
    true
}

/// Why a command that Herdr ran failed, where it did.
pub open spec fn herdr_refusal(
    arguments: Seq<Seq<char>>,
    succeeded: bool,
    complaint: Seq<char>,
) -> Option<ErrorText> {
    if succeeded {
        None
    } else {
        Some(
            failure(
                "Portboard Herdr command failed: "@ + joined(arguments, " "@) + ": "@ + trimmed(
                    complaint,
                ),
            ),
        )
    }
}

/// Requires that a command of Herdr succeeded, given what it complained of.
pub fn check_herdr_output(arguments: &Vec<String>, succeeded: bool, complaint: &str) -> (result:
    Result<(), PortboardError>)
    ensures
        refusal(result) == herdr_refusal(texts(arguments@), succeeded, complaint@),
{
    if succeeded {
        return Ok(());
    }
    let line = join(arguments, " ");
    let bare = trim(complaint);
    let mut message = "Portboard Herdr command failed: ".to_owned();
    message.append(line.as_str());
    message.append(": ");
    message.append(bare.as_str());
    Err(PortboardError::new(message))
}

/// Requires that a command of Herdr succeeded, given the bytes of what it complained of.
pub fn require_herdr_success(arguments: &Vec<String>, succeeded: bool, complaint: &[u8]) -> (result:
    Result<(), PortboardError>)
    ensures
        refusal(result) == herdr_refusal(texts(arguments@), succeeded, lossy(complaint@)),
{
    let text = lossy_text(complaint);
    check_herdr_output(arguments, succeeded, text.as_str())
}

/// Each end of a launch has its reason among the events: a command is launched only where its
/// process was seen after it ran, and only once its tab is focused where that is wanted; a
/// launch fails only where the command could not be run, or where no process was seen when the
/// time was over.
pub proof fn launches_report_what_was_seen(focus_after_start: bool, events: Seq<HerdrLaunchEvent>)
    ensures
        match herdr_launch_run(focus_after_start, events) {
            HerdrLaunchStep::CreateTab => true,
            HerdrLaunchStep::RunCommand => events.contains(HerdrLaunchEvent::Created),
            HerdrLaunchStep::FindProcess => events.contains(
                HerdrLaunchEvent::Ran { succeeded: true },
            ),
            HerdrLaunchStep::FocusTab { pid } => focus_after_start && events.contains(
                HerdrLaunchEvent::Ran { succeeded: true },
            ) && exists|remaining: u64| #[trigger]
                events.contains(HerdrLaunchEvent::Looked { pid: Some(pid), remaining }),
            HerdrLaunchStep::Launched { pid } => events.contains(
                HerdrLaunchEvent::Ran { succeeded: true },
            ) && (focus_after_start ==> events.contains(HerdrLaunchEvent::Focused))
                && exists|remaining: u64| #[trigger]
                events.contains(HerdrLaunchEvent::Looked { pid: Some(pid), remaining }),
            HerdrLaunchStep::CloseFailed => events.contains(
                HerdrLaunchEvent::Ran { succeeded: false },
            ),
            HerdrLaunchStep::CommandFailed => events.contains(
                HerdrLaunchEvent::Ran { succeeded: false },
            ) && events.contains(HerdrLaunchEvent::Closed),
            HerdrLaunchStep::CloseUnidentified => events.contains(
                HerdrLaunchEvent::Looked { pid: None, remaining: 0 },
            ),
            HerdrLaunchStep::Unidentified => events.contains(
                HerdrLaunchEvent::Looked { pid: None, remaining: 0 },
            ) && events.contains(HerdrLaunchEvent::Closed),
        },
    decreases events.len(),
{
    if events.len() > 0 {
        launches_report_what_was_seen(focus_after_start, events.drop_last());
        lemma_all_seen(events);
        match events.last() {
            HerdrLaunchEvent::Looked { pid: Some(pid), remaining } => {
                assert(events.contains(HerdrLaunchEvent::Looked { pid: Some(pid), remaining }));
            },
            HerdrLaunchEvent::Looked { pid: None, remaining } => {
                assert(events.contains(HerdrLaunchEvent::Looked { pid: None, remaining }));
            },
            _ => {},
        }
    }
}

/// A launch comes to its end for everything that can be seen on the way: a command that cannot
/// be run or whose process does not appear in time has its tab closed, and one whose process is
/// seen is launched with that process, behind the focus where that is wanted. While there is
/// time the process is looked for again.
pub proof fn launches_come_to_their_end(
    focus_after_start: bool,
    succeeded: bool,
    pid: Option<u32>,
    remaining: u64,
)
    ensures
        ({
            let after = |step: HerdrLaunchStep, event: HerdrLaunchEvent|
                herdr_launch_after(focus_after_start, step, event);
            let ran = after(
                after(HerdrLaunchStep::CreateTab, HerdrLaunchEvent::Created),
                HerdrLaunchEvent::Ran { succeeded },
            );
            let looked = after(ran, HerdrLaunchEvent::Looked { pid, remaining });
            &&& !succeeded ==> ran == HerdrLaunchStep::CloseFailed && after(
                ran,
                HerdrLaunchEvent::Closed,
            ) == HerdrLaunchStep::CommandFailed
            &&& succeeded ==> match pid {
                Some(pid) => if focus_after_start {
                    looked == (HerdrLaunchStep::FocusTab { pid }) && after(
                        looked,
                        HerdrLaunchEvent::Focused,
                    ) == (HerdrLaunchStep::Launched { pid })
                } else {
                    looked == (HerdrLaunchStep::Launched { pid })
                },
                None => if remaining > 0 {
                    looked == ran
                } else {
                    looked == HerdrLaunchStep::CloseUnidentified && after(
                        looked,
                        HerdrLaunchEvent::Closed,
                    ) == HerdrLaunchStep::Unidentified
                },
            }
        }),
{
}

/// A launch moves on only where the event is the one that its step asks for: what comes out of
/// turn changes nothing, and an end is the end. It fails exactly where its command could not be
/// run or its process was not seen.
pub proof fn launches_move_in_turn(
    focus_after_start: bool,
    step: HerdrLaunchStep,
    event: HerdrLaunchEvent,
    cause: Seq<char>,
)
    ensures
        herdr_launch_after(focus_after_start, step, event) != step ==> match step {
            HerdrLaunchStep::CreateTab => event is Created,
            HerdrLaunchStep::RunCommand => event is Ran,
            HerdrLaunchStep::FindProcess => event is Looked,
            HerdrLaunchStep::FocusTab { .. } => event is Focused,
            HerdrLaunchStep::CloseFailed | HerdrLaunchStep::CloseUnidentified => event is Closed,
            HerdrLaunchStep::Launched { .. } | HerdrLaunchStep::CommandFailed
            | HerdrLaunchStep::Unidentified => false,
        },
        herdr_launch_failure(step, cause) is Some <==> step is CommandFailed
            || step is Unidentified,
{
}

/// The command in front of a pane is the first process there that is not the shell, and there is
/// none only where nothing but the shell is there.
pub proof fn the_first_command_is_found(foreground: Seq<u32>, shell_pid: u32)
    ensures
        match first_command(foreground, shell_pid) {
            Some(pid) => pid != shell_pid && exists|i: int|
                0 <= i < foreground.len() && #[trigger] foreground[i] == pid && forall|j: int|
                    0 <= j < i ==> #[trigger] foreground[j] == shell_pid,
            None => forall|i: int|
                0 <= i < foreground.len() ==> #[trigger] foreground[i] == shell_pid,
        },
    decreases foreground.len(),
{
    if foreground.len() > 0 {
        if foreground[0] != shell_pid {
            assert(foreground[0] == foreground[0]);
        } else {
            let rest = foreground.skip(1);
            the_first_command_is_found(rest, shell_pid);
            match first_command(rest, shell_pid) {
                Some(pid) => {
                    let i = choose|i: int|
                        0 <= i < rest.len() && #[trigger] rest[i] == pid && forall|j: int|
                            0 <= j < i ==> #[trigger] rest[j] == shell_pid;
                    assert(foreground[i + 1] == pid);
                    assert forall|j: int| 0 <= j < i + 1 implies #[trigger] foreground[j]
                        == shell_pid by {
                        if j > 0 {
                            assert(rest[j - 1] == shell_pid);
                        }
                    }
                },
                None => {
                    assert forall|i: int| 0 <= i < foreground.len() implies #[trigger] foreground[i]
                        == shell_pid by {
                        if i > 0 {
                            assert(rest[i - 1] == shell_pid);
                        }
                    }
                },
            }
        }
    }
}

/// Whether some run is the shell of a pane, or lies below it.
pub open spec fn some_run_lies_under(
    shell_pid: Option<u32>,
    runs: Seq<RunText>,
    links: Seq<ParentLink>,
) -> bool {
    exists|i: int|
        0 <= i < runs.len() && shell_pid is Some && lies_under(
            links,
            (#[trigger] runs[i]).pid,
            shell_pid->0,
        )
}

/// The tab of some runs is that of the first pane under whose shell one of them lies, however
/// far below; there is none only where no pane has any of them.
pub proof fn runs_are_found_in_their_tab(
    panes: Seq<PaneShell>,
    runs: Seq<RunText>,
    links: Seq<ParentLink>,
)
    ensures
        match hosting_tab(panes, runs, links) {
            Some(tab_id) => exists|i: int|
                0 <= i < panes.len() && (#[trigger] panes[i]).tab_id@ == tab_id
                    && some_run_lies_under(panes[i].shell_pid, runs, links) && forall|j: int|
                    0 <= j < i ==> !some_run_lies_under(
                        (#[trigger] panes[j]).shell_pid,
                        runs,
                        links,
                    ),
            None => forall|i: int|
                0 <= i < panes.len() ==> !some_run_lies_under(
                    (#[trigger] panes[i]).shell_pid,
                    runs,
                    links,
                ),
        },
    decreases panes.len(),
{
    if panes.len() > 0 {
        lemma_hosts(panes[0].shell_pid, runs, links);
        if hosts_run(panes[0].shell_pid, runs, links) {
            assert(panes[0].tab_id@ == panes[0].tab_id@);
        } else {
            let rest = panes.skip(1);
            runs_are_found_in_their_tab(rest, runs, links);
            match hosting_tab(rest, runs, links) {
                Some(tab_id) => {
                    let i = choose|i: int|
                        0 <= i < rest.len() && (#[trigger] rest[i]).tab_id@ == tab_id
                            && some_run_lies_under(rest[i].shell_pid, runs, links) && forall|
                            j: int,
                        |
                            0 <= j < i ==> !some_run_lies_under(
                                (#[trigger] rest[j]).shell_pid,
                                runs,
                                links,
                            );
                    assert(panes[i + 1] == rest[i]);
                    assert forall|j: int| 0 <= j < i + 1 implies !some_run_lies_under(
                        (#[trigger] panes[j]).shell_pid,
                        runs,
                        links,
                    ) by {
                        if j > 0 {
                            assert(panes[j] == rest[j - 1]);
                        }
                    }
                },
                None => {
                    assert forall|i: int| 0 <= i < panes.len() implies !some_run_lies_under(
                        (#[trigger] panes[i]).shell_pid,
                        runs,
                        links,
                    ) by {
                        if i > 0 {
                            assert(panes[i] == rest[i - 1]);
                        }
                    }
                },
            }
        }
    }
}

proof fn lemma_hosts(shell_pid: Option<u32>, runs: Seq<RunText>, links: Seq<ParentLink>)
    ensures
        hosts_run(shell_pid, runs, links) <==> some_run_lies_under(shell_pid, runs, links),
{
    if shell_pid is Some {
        let shell = shell_pid->0;
        assert forall|i: int| 0 <= i < runs.len() implies (descends_from(
            links,
            (#[trigger] runs[i]).pid,
            shell,
            CHAIN_LIMIT as nat,
        ) <==> lies_under(links, runs[i].pid, shell)) by {
            descent_follows_parents(links, runs[i].pid, shell);
        }
    }
}

/// A pane that cannot be looked at counts as busy and as somebody else's; any other is busy
/// exactly where something but its shell is in front, and Portboard's exactly where the
/// environment of its shell names the target.
pub proof fn unknown_panes_are_left_alone(
    pane: Option<PaneProcesses>,
    shell_environment: Option<Seq<u8>>,
    target_id: Seq<char>,
)
    ensures
        pane is None ==> liveness_of(pane, shell_environment, target_id).has_foreground_command
            && !liveness_of(pane, shell_environment, target_id).portboard_owned,
        pane matches Some(processes) ==> (liveness_of(
            pane,
            shell_environment,
            target_id,
        ).has_foreground_command <==> exists|i: int|
            0 <= i < processes.foreground@.len() && #[trigger] processes.foreground@[i]
                != processes.shell_pid),
        pane is Some ==> (liveness_of(pane, shell_environment, target_id).portboard_owned
            <==> names_target(shell_environment, target_id)),
{
    if let Some(processes) = pane {
        the_first_command_is_found(processes.foreground@, processes.shell_pid);
    }
}

/// A tab is closed as stale exactly where it is labeled with the target, has a pane, and every
/// pane of it is Portboard's and runs nothing but its shell.
pub proof fn stale_tabs_are_idle_and_owned(
    tabs: Seq<TabRecord>,
    panes: Seq<PaneRecord>,
    target_id: Seq<char>,
    count: int,
    tab_id: Seq<char>,
)
    requires
        0 <= count <= tabs.len(),
    ensures
        stale_tabs(tabs, panes, target_id, count).contains(tab_id) <==> (exists|i: int|
            0 <= i < count && (#[trigger] tabs[i]).tab_id@ == tab_id && tabs[i].label@ == target_id)
            && (exists|i: int| 0 <= i < panes.len() && (#[trigger] panes[i]).tab_id@ == tab_id) && (
        forall|i: int|
            0 <= i < panes.len() && (#[trigger] panes[i]).tab_id@ == tab_id
                ==> panes[i].liveness.portboard_owned && !panes[i].liveness.has_foreground_command),
    decreases count,
{
    lemma_tab_panes(panes, tab_id);
    if count > 0 {
        let last = count - 1;
        stale_tabs_are_idle_and_owned(tabs, panes, target_id, last, tab_id);
        let before = stale_tabs(tabs, panes, target_id, last);
        let after = stale_tabs(tabs, panes, target_id, count);
        if before.contains(tab_id) {
            let at = choose|at: int| 0 <= at < before.len() && before[at] == tab_id;
            assert(after[at] == tab_id);
        } else {
            if after.contains(tab_id) {
                let at = choose|at: int| 0 <= at < after.len() && after[at] == tab_id;
                if at < before.len() {
                    assert(before[at] == tab_id);
                }
                assert(tabs[last].tab_id@ == tab_id);
            }
            if tabs[last].tab_id@ == tab_id && is_stale_tab(tabs[last], panes, target_id) {
                assert(after[before.len() as int] == tab_id);
            }
        }
    }
}

proof fn lemma_tab_panes(panes: Seq<PaneRecord>, tab_id: Seq<char>)
    ensures
        is_reapable(tab_panes(panes, tab_id)) <==> (exists|i: int|
            0 <= i < panes.len() && (#[trigger] panes[i]).tab_id@ == tab_id) && (forall|i: int|
            0 <= i < panes.len() && (#[trigger] panes[i]).tab_id@ == tab_id
                ==> panes[i].liveness.portboard_owned && !panes[i].liveness.has_foreground_command),
        is_idle(tab_panes(panes, tab_id)) <==> forall|i: int|
            0 <= i < panes.len() && (#[trigger] panes[i]).tab_id@ == tab_id
                ==> !panes[i].liveness.has_foreground_command,
        forall|k: int|
            0 <= k < tab_panes(panes, tab_id).len() ==> exists|i: int|
                0 <= i < panes.len() && (#[trigger] panes[i]).tab_id@ == tab_id && panes[i].liveness
                    == #[trigger] tab_panes(panes, tab_id)[k],
{
    let listed = tab_panes(panes, tab_id);
    assert forall|k: int| 0 <= k < listed.len() implies exists|i: int|
        0 <= i < panes.len() && (#[trigger] panes[i]).tab_id@ == tab_id && panes[i].liveness
            == #[trigger] listed[k] by {
        lemma_listed_pane(panes, tab_id, k);
    }
    assert forall|i: int| 0 <= i < panes.len() && (#[trigger] panes[i]).tab_id@ == tab_id implies
        listed.contains(panes[i].liveness) by {
        lemma_pane_stands(panes, tab_id, i);
    }
    if exists|i: int| 0 <= i < panes.len() && (#[trigger] panes[i]).tab_id@ == tab_id {
        let i = choose|i: int| 0 <= i < panes.len() && (#[trigger] panes[i]).tab_id@ == tab_id;
        assert(listed.contains(panes[i].liveness));
    }
    if is_reapable(listed) {
        lemma_listed_pane(panes, tab_id, 0);
        assert forall|i: int|
            0 <= i < panes.len() && (#[trigger] panes[i]).tab_id@
                == tab_id implies panes[i].liveness.portboard_owned
            && !panes[i].liveness.has_foreground_command by {
            let k = choose|k: int| 0 <= k < listed.len() && listed[k] == panes[i].liveness;
            assert(listed[k].portboard_owned);
        }
    }
    if forall|i: int|
        0 <= i < panes.len() && (#[trigger] panes[i]).tab_id@ == tab_id
            ==> !panes[i].liveness.has_foreground_command {
        assert forall|k: int| 0 <= k < listed.len() implies !(
        #[trigger] listed[k]).has_foreground_command by {
            let i = choose|i: int|
                0 <= i < panes.len() && (#[trigger] panes[i]).tab_id@ == tab_id
                    && panes[i].liveness == listed[k];
            assert(panes[i].tab_id@ == tab_id);
        }
    }
    if forall|i: int|
        0 <= i < panes.len() && (#[trigger] panes[i]).tab_id@ == tab_id
            ==> panes[i].liveness.portboard_owned && !panes[i].liveness.has_foreground_command {
        assert forall|k: int| 0 <= k < listed.len() implies (#[trigger] listed[k]).portboard_owned
            && !listed[k].has_foreground_command by {
            let i = choose|i: int|
                0 <= i < panes.len() && (#[trigger] panes[i]).tab_id@ == tab_id
                    && panes[i].liveness == listed[k];
            assert(panes[i].tab_id@ == tab_id);
        }
    }
}

proof fn lemma_listed_pane(panes: Seq<PaneRecord>, tab_id: Seq<char>, k: int)
    requires
        0 <= k < tab_panes(panes, tab_id).len(),
    ensures
        exists|i: int|
            0 <= i < panes.len() && (#[trigger] panes[i]).tab_id@ == tab_id && panes[i].liveness
                == tab_panes(panes, tab_id)[k],
    decreases panes.len(),
{
    let fewer = panes.drop_last();
    let before = tab_panes(fewer, tab_id);
    if k < before.len() {
        lemma_listed_pane(fewer, tab_id, k);
        let i = choose|i: int|
            0 <= i < fewer.len() && (#[trigger] fewer[i]).tab_id@ == tab_id && fewer[i].liveness
                == before[k];
        assert(panes[i] == fewer[i]);
    } else {
        assert(panes[panes.len() - 1].tab_id@ == tab_id);
    }
}

proof fn lemma_pane_stands(panes: Seq<PaneRecord>, tab_id: Seq<char>, index: int)
    requires
        0 <= index < panes.len(),
        panes[index].tab_id@ == tab_id,
    ensures
        tab_panes(panes, tab_id).contains(panes[index].liveness),
    decreases panes.len(),
{
    let fewer = panes.drop_last();
    let before = tab_panes(fewer, tab_id);
    let after = tab_panes(panes, tab_id);
    if index == panes.len() - 1 {
        assert(after[before.len() as int] == panes[index].liveness);
    } else {
        assert(fewer[index] == panes[index]);
        lemma_pane_stands(fewer, tab_id, index);
        let at = choose|at: int|
            0 <= at < before.len() && before[at] == panes[index].liveness;
        assert(after[at] == panes[index].liveness);
    }
}

/// The tab of a stopped target is closed exactly where no pane of it runs anything but its
/// shell.
pub proof fn busy_tabs_are_never_closed(panes: Seq<PaneRecord>, tab_id: Seq<char>)
    ensures
        is_idle(tab_panes(panes, tab_id)) <==> forall|i: int|
            0 <= i < panes.len() && (#[trigger] panes[i]).tab_id@ == tab_id
                ==> !panes[i].liveness.has_foreground_command,
{
    lemma_tab_panes(panes, tab_id);
}

/// A workspace is named by the variable of its own where that is set, else by the shared one,
/// and an empty name is none.
pub proof fn own_workspaces_come_first(id: Seq<char>, shared: Option<Seq<char>>)
    ensures
        id.len() > 0 ==> workspace_of(Some(id), shared) == Some(id) && workspace_of(
            None,
            Some(id),
        ) == Some(id),
        workspace_of(Some(Seq::empty()), shared) is None,
        workspace_of(None, None) is None,
{
}

/// A panel is asked for exactly where the workspace and its directory are known, for that
/// workspace and in that directory, and by the plugin that is named or Portboard's own.
pub proof fn panels_open_in_their_workspace(
    workspace_id: Option<Seq<char>>,
    workspace_cwd: Option<Seq<char>>,
    plugin_id: Option<Seq<char>>,
)
    ensures
        match panel_request(workspace_id, workspace_cwd, plugin_id) {
            Ok(arguments) => {
                &&& workspace_id is Some && workspace_cwd is Some
                &&& arguments.len() == 12
                &&& arguments.take(3) == seq!["plugin"@, "pane"@, "open"@]
                &&& arguments[3] == "--plugin"@ && arguments[4] == (match plugin_id {
                    Some(plugin) => plugin,
                    None => "portboard"@,
                })
                &&& arguments[7] == "--cwd"@ && arguments[8] == workspace_cwd->0
                &&& arguments[9] == "--env"@ && arguments[10] == "PORTBOARD_WORKSPACE_ID="@
                    + workspace_id->0
            },
            Err(_) => workspace_id is None || workspace_cwd is None,
        },
{
    if let Ok(arguments) = panel_request(workspace_id, workspace_cwd, plugin_id) {
        assert(arguments.take(3) =~= seq!["plugin"@, "pane"@, "open"@]);
    }
}

/// A tab is created in its workspace and directory, labeled with its target, without taking the
/// focus, and with the very entry in its environment by which the processes of the target are
/// known.
pub proof fn tabs_mark_their_processes(
    workspace_id: Seq<char>,
    cwd: Seq<char>,
    target_id: Seq<char>,
)
    requires
        !encode_utf8("PORTBOARD_TARGET_ID="@ + target_id).contains(0u8),
    ensures
        ({
            let arguments = tab_create_arguments(workspace_id, cwd, target_id);
            &&& arguments.len() == 11
            &&& arguments[2] == "--workspace"@ && arguments[3] == workspace_id
            &&& arguments[4] == "--cwd"@ && arguments[5] == cwd
            &&& arguments[6] == "--label"@ && arguments[7] == target_id
            &&& arguments[8] == "--env"@ && names_target(
                Some(encode_utf8(arguments[9])),
                target_id,
            )
            &&& arguments.contains("--no-focus"@)
        }),
{
    let arguments = tab_create_arguments(workspace_id, cwd, target_id);
    let entry = encode_utf8("PORTBOARD_TARGET_ID="@ + target_id);
    assert forall|i: int| 0 <= i < entry.len() implies !only(0u8)(#[trigger] entry[i]) by {
        assert(entry.contains(entry[i]));
    }
    pieces_part_at_separators(entry, 0u8, Seq::empty(), only(0u8));
    assert(pieces_at(entry, 0u8) == seq![entry]);
    assert(seq![entry][0] == entry);
    assert(arguments[10] == "--no-focus"@);
}

/// A command of Herdr is refused exactly where it failed, and the refusal names it.
pub proof fn failed_commands_are_named(
    arguments: Seq<Seq<char>>,
    succeeded: bool,
    complaint: Seq<char>,
    tab_id: Seq<char>,
)
    ensures
        herdr_refusal(arguments, succeeded, complaint) is None <==> succeeded,
        tab_focus_arguments(tab_id) == seq!["tab"@, "focus"@, tab_id],
        tab_close_arguments(tab_id) == seq!["tab"@, "close"@, tab_id],
{
}

/// A pane is asked to run a line that its shell makes into exactly the arguments of the command.
pub proof fn panes_run_the_command(pane_id: Seq<char>, argv: Seq<Seq<char>>)
    ensures
        pane_run_arguments(pane_id, argv).take(3) == seq!["pane"@, "run"@, pane_id],
        shell_words(
            joined(pane_run_arguments(pane_id, argv).skip(3), " "@),
            None,
            false,
            Seq::empty(),
        ) == Some(argv),
{
    let arguments = pane_run_arguments(pane_id, argv);
    assert(arguments.take(3) =~= seq!["pane"@, "run"@, pane_id]);
    assert(arguments.skip(3) =~= shell_line(argv));
    arguments_survive_the_shell(argv);
}

/// The words with which a shell begins or continues a compound command.
pub open spec fn shell_keywords() -> Seq<Seq<char>> {
    seq![
        "if"@,
        "then"@,
        "else"@,
        "elif"@,
        "fi"@,
        "do"@,
        "done"@,
        "case"@,
        "esac"@,
        "while"@,
        "until"@,
        "for"@,
        "in"@,
        "select"@,
        "function"@,
        "time"@,
        "coproc"@,
    ]
}

/// An argument is written as it stands exactly where it says something in letters, digits, dashes,
/// underscores, points, slashes and colons and is no keyword of the shell; every other one stands
/// between quotes, a keyword too.
pub proof fn keywords_are_quoted(argument: Seq<char>)
    ensures
        ({
            let plain = argument.len() > 0 && forall|i: int|
                0 <= i < argument.len() ==> (is_ascii_word_character(#[trigger] argument[i])
                    || argument[i] == '-' || argument[i] == '_' || argument[i] == '.' || argument[i]
                    == '/' || argument[i] == ':');
            &&& plain && !shell_keywords().contains(argument) ==> shell_word(argument) == argument
            &&& !plain || shell_keywords().contains(argument) ==> shell_word(argument).len() >= 2
                && shell_word(argument).first() == '\'' && shell_word(argument).last() == '\''
        }),
{
    let known = shell_keywords();
    assert(known[0] == "if"@ && known[1] == "then"@ && known[2] == "else"@ && known[3] == "elif"@
        && known[4] == "fi"@ && known[5] == "do"@ && known[6] == "done"@ && known[7] == "case"@
        && known[8] == "esac"@ && known[9] == "while"@ && known[10] == "until"@ && known[11]
        == "for"@ && known[12] == "in"@ && known[13] == "select"@ && known[14] == "function"@
        && known[15] == "time"@ && known[16] == "coproc"@);
    assert(is_reserved_word(argument) <==> known.contains(argument)) by {
        if known.contains(argument) {
            let at = choose|at: int| 0 <= at < known.len() && known[at] == argument;
            assert(0 <= at < 17);
        }
    }
    reveal_strlit("'");
}

} // verus!
