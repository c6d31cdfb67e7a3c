//! Live processes of a worktree, and which of them run a launch target.
use vstd::prelude::*;
use vstd::string::*;
use vstd::utf8::*;

use crate::launch_target_config::{LaunchTarget, TargetText};
use crate::lossy_text::{lossy, lossy_text};
use crate::numbers::{number_value, optional_number, parse_number};
use crate::ordered::{ascending, has_key, keys, sorted_stably, Rank, Ranked};
use crate::path_text::{
    below, ends_with_path, file_name, file_name_of, file_names_stand_last, lies_below,
    path_ends_with, same_path,
    byte_components, text_components,
};
use crate::process_endpoints::{
    attributes_listeners, find_process_endpoints_by_process, EndpointGroup, SocketSnapshot,
};
use crate::process_identity::{
    environment_holds, holds_environment_entry, stat_fields, ProcessIdentity,
};
use crate::text::{
    after_prefix, characters, copy_strings, is_text, lines_of, only, part_behind_last, pieces_at,
    pieces_part_at_separators, prefixes_are_taken_off, rows, same_text, split_bytes_at,
    split_lines, split_words, strip_prefix, text_of, texts, texts_end_behind_the_last_separator,
    trim_characters, trimmed, words,
};

verus! {

/// Live operating-system process matching one launch target in its worktree: the outermost
/// process of a run. The members are the identities, below it, of the processes whose command
/// line matches the signature of the target; each may publish the runtime metadata.
#[derive(Debug, PartialEq, Eq)]
pub struct LaunchTargetProcess {
    pub metadata_members: Vec<ProcessIdentity>,
    pub pid: u32,
    pub start_time: u64,
    pub argv: Vec<String>,
}

/// Live operating-system process whose cwd is inside one worktree.
#[derive(Debug, PartialEq, Eq)]
pub struct WorktreeProcess {
    pub pid: u32,
    pub start_time: u64,
    pub argv: Vec<String>,
    /// The environment block, where it could be read.
    pub environment: Option<Vec<u8>>,
}

/// What a process of a launch target is.
pub struct RunText {
    pub metadata_members: Seq<ProcessIdentity>,
    pub pid: u32,
    pub start_time: u64,
    pub argv: Seq<Seq<char>>,
}

/// What a process of a worktree is.
pub struct WorktreeProcessText {
    pub pid: u32,
    pub start_time: u64,
    pub argv: Seq<Seq<char>>,
    pub environment: Option<Seq<u8>>,
}

impl View for LaunchTargetProcess {
    type V = RunText;

    open spec fn view(&self) -> RunText {
        RunText {
            metadata_members: self.metadata_members@,
            pid: self.pid,
            start_time: self.start_time,
            argv: texts(self.argv@),
        }
    }
}

impl View for WorktreeProcess {
    type V = WorktreeProcessText;

    open spec fn view(&self) -> WorktreeProcessText {
        WorktreeProcessText {
            pid: self.pid,
            start_time: self.start_time,
            argv: texts(self.argv@),
            environment: optional_bytes(self.environment),
        }
    }
}

/// The bytes of an optional block.
pub open spec fn optional_bytes(value: Option<Vec<u8>>) -> Option<Seq<u8>> {
    match value {
        Some(bytes) => Some(bytes@),
        None => None,
    }
}

/// What every process of a list is.
pub open spec fn run_texts(runs: Seq<LaunchTargetProcess>) -> Seq<RunText> {
    Seq::new(runs.len(), |i: int| runs[i]@)
}

/// What every process of a list is.
pub open spec fn worktree_texts(processes: Seq<WorktreeProcess>) -> Seq<WorktreeProcessText> {
    Seq::new(processes.len(), |i: int| processes[i]@)
}

impl LaunchTargetProcess {
    /// The exact identity of the outermost process.
    pub fn identity(&self) -> (result: ProcessIdentity)
        ensures
            result == run_identity(self@),
    {
        ProcessIdentity { pid: self.pid, start_time: self.start_time }
    }
}

/// The exact identity of the outermost process of a run.
pub open spec fn run_identity(run: RunText) -> ProcessIdentity {
    ProcessIdentity { pid: run.pid, start_time: run.start_time }
}

/// The identities of the outermost processes of some runs.
pub open spec fn run_identities(runs: Seq<RunText>) -> Seq<ProcessIdentity> {
    Seq::new(runs.len(), |i: int| run_identity(runs[i]))
}

impl Clone for LaunchTargetProcess {
    fn clone(&self) -> (result: Self)
        ensures
            result@ == self@,
    {
        LaunchTargetProcess {
            metadata_members: copy_identities(&self.metadata_members),
            pid: self.pid,
            start_time: self.start_time,
            argv: copy_strings(&self.argv),
        }
    }
}

fn copy_identities(source: &Vec<ProcessIdentity>) -> (result: Vec<ProcessIdentity>)
    ensures
        result@ == source@,
{
    let mut result: Vec<ProcessIdentity> = Vec::new();
    let mut index: usize = 0;
    while index < source.len()
        invariant
            index <= source.len(),
            result@ == source@.take(index as int),
        decreases source.len() - index,
    {
        result.push(source[index]);
        index += 1;
        proof {
            assert(source@.take(index as int) =~= source@.take(index - 1).push(source@[index - 1]));
        }
    }
    proof {
        assert(source@.take(source@.len() as int) =~= source@);
    }
    result
}

/// Copies a list of runs.
pub fn copy_runs(source: &Vec<LaunchTargetProcess>) -> (result: Vec<LaunchTargetProcess>)
    ensures
        run_texts(result@) == run_texts(source@),
{
    let mut result: Vec<LaunchTargetProcess> = Vec::new();
    let mut index: usize = 0;
    while index < source.len()
        invariant
            index <= source.len(),
            run_texts(result@) == run_texts(source@).take(index as int),
        decreases source.len() - index,
    {
        let ghost before = run_texts(result@);
        result.push(source[index].clone());
        index += 1;
        proof {
            assert(run_texts(result@) =~= before.push(source@[index - 1]@));
            assert(run_texts(source@).take(index as int) =~= before.push(source@[index - 1]@));
        }
    }
    proof {
        assert(run_texts(source@).take(source@.len() as int) =~= run_texts(source@));
    }
    result
}

/// Shell basenames whose bare invocation identifies an interactive shell.
pub open spec fn is_interactive_shell_name(name: Seq<char>) -> bool {
    ||| name == "bash"@
    ||| name == "sh"@
    ||| name == "zsh"@
    ||| name == "fish"@
    ||| name == "dash"@
    ||| name == "ksh"@
    ||| name == "csh"@
    ||| name == "tcsh"@
    ||| name == "nu"@
    ||| name == "elvish"@
    ||| name == "xonsh"@
}

/// The basename of a command; a login shell writes a dash before it.
pub open spec fn command_name(command: Seq<char>) -> Seq<char> {
    let name = match file_name_of(command) {
        Some(name) => name,
        None => Seq::empty(),
    };
    if name.len() > 0 && name[0] == '-' {
        name.skip(1)
    } else {
        name
    }
}

/// A command line that is a bare interactive shell.
pub open spec fn is_interactive_shell(argv: Seq<Seq<char>>) -> bool {
    argv.len() == 1 && is_interactive_shell_name(command_name(argv[0]))
}

/// Returns whether a command line looks like a bare interactive shell.
///
/// Portboard's Herdr host panes carry `PORTBOARD_TARGET_ID` in their shell
/// environment, so every pane shell inherits the target identity. Those shells
/// outlive the target command and must never count as a live run; wrappers
/// such as `bash -c ...` keep their arguments and stay detectable.
pub fn looks_like_interactive_shell(argv: &[String]) -> (result: bool)
    ensures
        result == is_interactive_shell(texts(argv@)),
{
    if argv.len() != 1 {
        proof {
            assert(texts(argv@).len() == argv.len());
        }
        return false;
    }
    proof {
        assert(texts(argv@)[0] == argv@[0]@);
    }
    let found = match file_name(argv[0].as_str()) {
        Some(name) => name,
        None => Vec::new(),
    };
    let bare = if found.len() > 0 && found[0] == '-' {
        crate::text::copy_range(found.as_slice(), 1, found.len())
    } else {
        crate::text::copy_range(found.as_slice(), 0, found.len())
    };
    proof {
        match file_name_of(argv@[0]@) {
            Some(name) => {},
            None => {
                assert(found@ =~= Seq::<char>::empty());
            },
        }
        assert(bare@ =~= command_name(argv@[0]@));
    }
    let name = bare.as_slice();
    is_text(name, "bash") || is_text(name, "sh") || is_text(name, "zsh") || is_text(name, "fish")
        || is_text(name, "dash") || is_text(name, "ksh") || is_text(name, "csh") || is_text(
        name,
        "tcsh",
    ) || is_text(name, "nu") || is_text(name, "elvish") || is_text(name, "xonsh")
}

/// An argument that equals an expected one, or is a path that ends in it.
pub open spec fn argument_matches(argument: Seq<char>, expected: Seq<char>) -> bool {
    argument == expected || path_ends_with(argument, expected)
}

pub fn process_argument_matches(argument: &str, expected: &str) -> (result: bool)
    ensures
        result == argument_matches(argument@, expected@),
{
    same_text(argument, expected) || ends_with_path(argument, expected)
}

/// Whether some argument of a command line matches an expected one.
pub open spec fn some_argument_matches(argv: Seq<Seq<char>>, expected: Seq<char>) -> bool {
    exists|i: int| 0 <= i < argv.len() && argument_matches(#[trigger] argv[i], expected)
}

/// Whether a command line shows a signature: each part of it matches some argument.
pub open spec fn shows_signature(argv: Seq<Seq<char>>, signature: Seq<Seq<char>>) -> bool {
    forall|i: int| 0 <= i < signature.len() ==> some_argument_matches(argv, #[trigger] signature[i])
}

fn any_argument_matches(argv: &Vec<String>, expected: &str) -> (result: bool)
    ensures
        result == some_argument_matches(texts(argv@), expected@),
{
    let mut index: usize = 0;
    while index < argv.len()
        invariant
            index <= argv.len(),
            forall|i: int|
                0 <= i < index ==> !argument_matches(#[trigger] texts(argv@)[i], expected@),
        decreases argv.len() - index,
    {
        if process_argument_matches(argv[index].as_str(), expected) {
            proof {
                assert(argument_matches(texts(argv@)[index as int], expected@));
            }
            return true;
        }
        index += 1;
    }
    false
}

fn command_shows(argv: &Vec<String>, signature: &Vec<String>) -> (result: bool)
    ensures
        result == shows_signature(texts(argv@), texts(signature@)),
{
    let mut index: usize = 0;
    while index < signature.len()
        invariant
            index <= signature.len(),
            forall|i: int|
                0 <= i < index ==> some_argument_matches(
                    texts(argv@),
                    #[trigger] texts(signature@)[i],
                ),
        decreases signature.len() - index,
    {
        if !any_argument_matches(argv, signature[index].as_str()) {
            proof {
                assert(!some_argument_matches(texts(argv@), texts(signature@)[index as int]));
            }
            return false;
        }
        index += 1;
    }
    true
}

/// The signature by which the processes of a target are known: its own, or its command.
pub open spec fn target_signature(target: TargetText) -> Seq<Seq<char>> {
    if target.process_match.len() == 0 {
        target.argv
    } else {
        target.process_match
    }
}

/// The entry that marks the environment of a run of a target.
pub open spec fn target_identity_entry(target_id: Seq<char>) -> Seq<char> {
    "PORTBOARD_TARGET_ID="@ + target_id
}

/// Whether an environment carries the identity of a target.
pub open spec fn carries_target_identity(
    environment: Option<Seq<u8>>,
    target_id: Seq<char>,
) -> bool {
    match environment {
        Some(block) => environment_holds(block, target_identity_entry(target_id)),
        None => false,
    }
}

/// Checks whether a process inherited the identity assigned by Portboard's run host.
pub fn process_has_portboard_target_identity(
    environment: &Option<Vec<u8>>,
    target_id: &str,
) -> (result: bool)
    ensures
        result == carries_target_identity(optional_bytes(*environment), target_id@),
{
    match environment {
        Some(block) => {
            let mut expected = "PORTBOARD_TARGET_ID=".to_owned();
            expected.append(target_id);
            holds_environment_entry(block.as_slice(), expected.as_str())
        },
        None => false,
    }
}

/// Whether a process belongs to a run of a target: its command line shows the signature, or
/// it inherited the identity and is no bare shell.
pub open spec fn belongs_to_target(process: WorktreeProcessText, target: TargetText) -> bool {
    ||| shows_signature(process.argv, target_signature(target))
    ||| !is_interactive_shell(process.argv) && carries_target_identity(
        process.environment,
        target.id,
    )
}

fn process_shows(process: &WorktreeProcess, target: &LaunchTarget) -> (result: bool)
    ensures
        result == shows_signature(process@.argv, target_signature(target@)),
{
    proof {
        assert(target@.process_match.len() == target.process_match.len());
    }
    if target.process_match.len() == 0 {
        command_shows(&process.argv, &target.argv)
    } else {
        command_shows(&process.argv, &target.process_match)
    }
}

fn process_belongs(process: &WorktreeProcess, target: &LaunchTarget) -> (result: bool)
    ensures
        result == belongs_to_target(process@, target@),
{
    process_shows(process, target) || (!looks_like_interactive_shell(process.argv.as_slice())
        && process_has_portboard_target_identity(&process.environment, target.id.as_str()))
}

/// The parent of one process.
#[derive(Clone, Copy, Debug, PartialEq, Eq, Structural)]
pub struct ParentLink {
    pub pid: u32,
    pub parent: u32,
}

/// The parent that a list of links gives a process; the last link counts.
pub open spec fn parent_of(links: Seq<ParentLink>, pid: u32) -> Option<u32>
    decreases links.len(),
{
    if links.len() == 0 {
        None
    } else if links.last().pid == pid {
        Some(links.last().parent)
    } else {
        parent_of(links.drop_last(), pid)
    }
}

pub fn find_parent(links: &Vec<ParentLink>, pid: u32) -> (result: Option<u32>)
    ensures
        result == parent_of(links@, pid),
{
    let mut index: usize = links.len();
    proof {
        assert(links@.take(links.len() as int) =~= links@);
    }
    while index > 0
        invariant
            index <= links.len(),
            parent_of(links@, pid) == parent_of(links@.take(index as int), pid),
        decreases index,
    {
        let ghost shown = links@.take(index as int);
        proof {
            assert(shown.last() == links@[index - 1]);
            assert(shown.drop_last() =~= links@.take(index - 1));
        }
        if links[index - 1].pid == pid {
            return Some(links[index - 1].parent);
        }
        index -= 1;
    }
    None
}

/// How far up a chain of parents is followed.
pub const CHAIN_LIMIT: usize = 128;

/// A process and its ancestors, nearest first, as far as the links lead. The chain ends below
/// the first processes of the machine.
pub open spec fn ancestry(links: Seq<ParentLink>, pid: u32, limit: nat) -> Seq<u32>
    decreases limit,
{
    if limit == 0 {
        Seq::empty()
    } else {
        seq![pid] + match parent_of(links, pid) {
            Some(parent) => if parent <= 1 || parent == pid {
                Seq::empty()
            } else {
                ancestry(links, parent, (limit - 1) as nat)
            },
            None => Seq::empty(),
        }
    }
}

/// Follows the chain of parents of a process.
pub fn follow_ancestry(links: &Vec<ParentLink>, pid: u32) -> (result: Vec<u32>)
    ensures
        result@ == ancestry(links@, pid, CHAIN_LIMIT as nat),
{
    let mut result: Vec<u32> = Vec::new();
    let mut current: u32 = pid;
    let mut left: usize = CHAIN_LIMIT;
    proof {
        assert(result@ + ancestry(links@, current, left as nat) =~= ancestry(
            links@,
            pid,
            CHAIN_LIMIT as nat,
        ));
    }
    while left > 0
        invariant
            result@ + ancestry(links@, current, left as nat) == ancestry(
                links@,
                pid,
                CHAIN_LIMIT as nat,
            ),
        decreases left,
    {
        let ghost before = result@;
        result.push(current);
        match find_parent(links, current) {
            Some(parent) => {
                if parent <= 1 || parent == current {
                    proof {
                        assert(result@ =~= before + (seq![current] + Seq::<u32>::empty()));
                    }
                    return result;
                }
                left -= 1;
                proof {
                    assert(result@ + ancestry(links@, parent, left as nat) =~= before + (seq![
                        current,
                    ] + ancestry(links@, parent, left as nat)));
                }
                current = parent;
            },
            None => {
                proof {
                    assert(result@ =~= before + (seq![current] + Seq::<u32>::empty()));
                }
                return result;
            },
        }
    }
    proof {
        assert(result@ + Seq::<u32>::empty() =~= result@);
    }
    result
}

/// The last pid of a chain that stands in a list.
pub open spec fn outermost_of(chain: Seq<u32>, list: Seq<u32>) -> Option<u32>
    decreases chain.len(),
{
    if chain.len() == 0 {
        None
    } else if list.contains(chain.last()) {
        Some(chain.last())
    } else {
        outermost_of(chain.drop_last(), list)
    }
}

/// Whether a list holds a pid.
pub fn holds_pid(list: &Vec<u32>, pid: u32) -> (result: bool)
    ensures
        result == list@.contains(pid),
{
    let mut index: usize = 0;
    while index < list.len()
        invariant
            index <= list.len(),
            forall|i: int| 0 <= i < index ==> #[trigger] list@[i] != pid,
        decreases list.len() - index,
    {
        if list[index] == pid {
            return true;
        }
        index += 1;
    }
    false
}

fn find_outermost(chain: &Vec<u32>, list: &Vec<u32>) -> (result: Option<u32>)
    ensures
        result == outermost_of(chain@, list@),
{
    let mut index: usize = chain.len();
    proof {
        assert(chain@.take(chain.len() as int) =~= chain@);
    }
    while index > 0
        invariant
            index <= chain.len(),
            outermost_of(chain@, list@) == outermost_of(chain@.take(index as int), list@),
        decreases index,
    {
        proof {
            assert(chain@.take(index as int).last() == chain@[index - 1]);
            assert(chain@.take(index as int).drop_last() =~= chain@.take(index - 1));
        }
        if holds_pid(list, chain[index - 1]) {
            return Some(chain[index - 1]);
        }
        index -= 1;
    }
    None
}

/// The pids of the processes that belong to a target, in order.
pub open spec fn member_pids(
    processes: Seq<WorktreeProcessText>,
    target: TargetText,
) -> Seq<u32>
    decreases processes.len(),
{
    if processes.len() == 0 {
        Seq::empty()
    } else {
        let before = member_pids(processes.drop_last(), target);
        if belongs_to_target(processes.last(), target) {
            before.push(processes.last().pid)
        } else {
            before
        }
    }
}

fn collect_members(processes: &Vec<WorktreeProcess>, target: &LaunchTarget) -> (result: Vec<u32>)
    ensures
        result@ == member_pids(worktree_texts(processes@), target@),
{
    let ghost seen = worktree_texts(processes@);
    let mut result: Vec<u32> = Vec::new();
    let mut index: usize = 0;
    while index < processes.len()
        invariant
            index <= processes.len(),
            seen == worktree_texts(processes@),
            result@ == member_pids(seen.take(index as int), target@),
        decreases processes.len() - index,
    {
        proof {
            assert(seen.take(index + 1).drop_last() =~= seen.take(index as int));
            assert(seen.take(index + 1).last() == processes@[index as int]@);
        }
        if process_belongs(&processes[index], target) {
            result.push(processes[index].pid);
        }
        index += 1;
    }
    proof {
        assert(seen.take(seen.len() as int) =~= seen);
    }
    result
}

/// The outermost process of a target above a process, itself counted.
pub open spec fn run_root(links: Seq<ParentLink>, members: Seq<u32>, pid: u32) -> Option<u32> {
    outermost_of(ancestry(links, pid, CHAIN_LIMIT as nat), members)
}

/// The identities of the processes below a root whose command line shows a signature.
pub open spec fn signature_members(
    processes: Seq<WorktreeProcessText>,
    links: Seq<ParentLink>,
    members: Seq<u32>,
    signature: Seq<Seq<char>>,
    root: u32,
) -> Seq<ProcessIdentity>
    decreases processes.len(),
{
    if processes.len() == 0 {
        Seq::empty()
    } else {
        let before = signature_members(processes.drop_last(), links, members, signature, root);
        let last = processes.last();
        if last.pid != root && shows_signature(last.argv, signature) && run_root(
            links,
            members,
            last.pid,
        ) == Some(root) {
            before.push(ProcessIdentity { pid: last.pid, start_time: last.start_time })
        } else {
            before
        }
    }
}

fn collect_signature_members(
    processes: &Vec<WorktreeProcess>,
    links: &Vec<ParentLink>,
    members: &Vec<u32>,
    target: &LaunchTarget,
    root: u32,
) -> (result: Vec<ProcessIdentity>)
    ensures
        result@ == signature_members(
            worktree_texts(processes@),
            links@,
            members@,
            target_signature(target@),
            root,
        ),
{
    let ghost seen = worktree_texts(processes@);
    let mut result: Vec<ProcessIdentity> = Vec::new();
    let mut index: usize = 0;
    while index < processes.len()
        invariant
            index <= processes.len(),
            seen == worktree_texts(processes@),
            result@ == signature_members(
                seen.take(index as int),
                links@,
                members@,
                target_signature(target@),
                root,
            ),
        decreases processes.len() - index,
    {
        proof {
            assert(seen.take(index + 1).drop_last() =~= seen.take(index as int));
            assert(seen.take(index + 1).last() == processes@[index as int]@);
        }
        let process = &processes[index];
        if process.pid != root && process_shows(process, target) {
            let chain = follow_ancestry(links, process.pid);
            match find_outermost(&chain, members) {
                Some(found) => {
                    if found == root {
                        result.push(
                            ProcessIdentity { pid: process.pid, start_time: process.start_time },
                        );
                    }
                },
                None => {},
            }
        }
        index += 1;
    }
    proof {
        assert(seen.take(seen.len() as int) =~= seen);
    }
    result
}

/// The runs of a target that begin among the first `count` processes: each process that belongs
/// to it and has no such process above it.
pub open spec fn target_runs(
    processes: Seq<WorktreeProcessText>,
    links: Seq<ParentLink>,
    target: TargetText,
    count: int,
) -> Seq<RunText>
    decreases count,
{
    if count <= 0 {
        Seq::empty()
    } else {
        let before = target_runs(processes, links, target, count - 1);
        let process = processes[count - 1];
        let members = member_pids(processes, target);
        if belongs_to_target(process, target) && run_root(links, members, process.pid) == Some(
            process.pid,
        ) {
            before.push(
                RunText {
                    metadata_members: signature_members(
                        processes,
                        links,
                        members,
                        target_signature(target),
                        process.pid,
                    ),
                    pid: process.pid,
                    start_time: process.start_time,
                    argv: process.argv,
                },
            )
        } else {
            before
        }
    }
}

/// Finds the runs of a launch target among the live processes of its worktree. A process
/// belongs to the target when its argv matches the configured pattern, or when it
/// inherited the target's `PORTBOARD_TARGET_ID` identity from a Portboard-run
/// host pane. The identity pass keeps detection working across re-exec and
/// wrapper scripts that would otherwise hide the real server from argv
/// matching; interactive host shells carrying the marker are ignored. Processes
/// below another one of the target are parts of its run, not runs of their own.
pub fn find_launch_target_processes(
    processes: &Vec<WorktreeProcess>,
    links: &Vec<ParentLink>,
    target: &LaunchTarget,
) -> (result: Vec<LaunchTargetProcess>)
    ensures
        run_texts(result@) == target_runs(
            worktree_texts(processes@),
            links@,
            target@,
            processes@.len() as int,
        ),
{
    let ghost seen = worktree_texts(processes@);
    let members = collect_members(processes, target);
    let mut result: Vec<LaunchTargetProcess> = Vec::new();
    let mut index: usize = 0;
    proof {
        assert(run_texts(result@) =~= Seq::<RunText>::empty());
    }
    while index < processes.len()
        invariant
            index <= processes.len(),
            seen == worktree_texts(processes@),
            members@ == member_pids(seen, target@),
            run_texts(result@) == target_runs(seen, links@, target@, index as int),
        decreases processes.len() - index,
    {
        let process = &processes[index];
        proof {
            assert(seen[index as int] == process@);
        }
        if process_belongs(process, target) {
            let chain = follow_ancestry(links, process.pid);
            match find_outermost(&chain, &members) {
                Some(found) => {
                    if found == process.pid {
                        let ghost before = run_texts(result@);
                        let run = LaunchTargetProcess {
                            metadata_members: collect_signature_members(
                                processes,
                                links,
                                &members,
                                target,
                                process.pid,
                            ),
                            pid: process.pid,
                            start_time: process.start_time,
                            argv: copy_strings(&process.argv),
                        };
                        let ghost added = run@;
                        result.push(run);
                        proof {
                            assert(run_texts(result@) =~= before.push(added));
                        }
                    }
                },
                None => {},
            }
        }
        index += 1;
    }
    result
}

/// What was read of one entry of the process directory. An empty field could not be read.
#[derive(Debug, PartialEq, Eq)]
pub struct ProcessObservation {
    pub name: String,
    pub stat: Option<String>,
    pub cwd: Option<Vec<u8>>,
    pub command_line: Option<Vec<u8>>,
    pub stat_again: Option<String>,
    pub environment: Option<Vec<u8>>,
}

/// The start time in a statistics line: the twentieth field behind the command name.
pub open spec fn start_time_of(stat: Seq<char>) -> Option<nat> {
    let fields = stat_fields(stat);
    if fields.len() > 19 {
        number_value(fields[19], 10, u64::MAX as nat)
    } else {
        None
    }
}

/// Reads the start time in a statistics line.
pub fn read_process_start_time(stat: &str) -> (result: Option<u64>)
    ensures
        optional_number(result) == start_time_of(stat@),
{
    let source = characters(stat);
    match part_behind_last(source.as_slice(), ')') {
        Some(rest) => {
            let fields = split_words(rest.as_slice());
            proof {
                assert(rows(fields@) == stat_fields(stat@));
                assert(rows(fields@).len() == fields.len());
            }
            if fields.len() > 19 {
                proof {
                    assert(rows(fields@)[19] == fields@[19]@);
                }
                parse_number(fields[19].as_slice(), 10, u64::MAX)
            } else {
                None
            }
        },
        None => None,
    }
}

/// The arguments of a command line whose arguments end in zero bytes, from the first `count`
/// pieces: the pieces that hold something.
pub open spec fn arguments_of(parts: Seq<Seq<u8>>, count: int) -> Seq<Seq<char>>
    decreases count,
{
    if count <= 0 {
        Seq::empty()
    } else if parts[count - 1].len() == 0 {
        arguments_of(parts, count - 1)
    } else {
        arguments_of(parts, count - 1).push(lossy(parts[count - 1]))
    }
}

/// The arguments of a command line whose arguments end in zero bytes.
pub open spec fn command_arguments(command_line: Seq<u8>) -> Seq<Seq<char>> {
    let parts = pieces_at(command_line, 0u8);
    arguments_of(parts, parts.len() as int)
}

/// Splits a command line into its arguments. No argument is empty.
pub fn split_command_line(command_line: &[u8]) -> (result: Vec<String>)
    ensures
        texts(result@) == command_arguments(command_line@),
        forall|i: int| 0 <= i < result@.len() ==> (#[trigger] result@[i])@.len() > 0,
{
    let parts = split_bytes_at(command_line, 0u8);
    let ghost shown = pieces_at(command_line@, 0u8);
    let mut result: Vec<String> = Vec::new();
    let mut index: usize = 0;
    proof {
        assert(texts(result@) =~= Seq::<Seq<char>>::empty());
        assert(rows(parts@).len() == parts.len());
    }
    while index < parts.len()
        invariant
            index <= parts.len(),
            rows(parts@) == shown,
            shown.len() == parts.len(),
            texts(result@) == arguments_of(shown, index as int),
            forall|i: int| 0 <= i < result@.len() ==> (#[trigger] result@[i])@.len() > 0,
        decreases parts.len() - index,
    {
        proof {
            assert(shown[index as int] == parts@[index as int]@);
        }
        if parts[index].len() > 0 {
            let ghost before = texts(result@);
            let argument = lossy_text(parts[index].as_slice());
            let ghost added = argument@;
            result.push(argument);
            proof {
                assert(texts(result@) =~= before.push(added));
            }
        }
        index += 1;
    }
    result
}

/// Whether a directory lies in a worktree and in none of the others below it.
pub open spec fn lies_in_worktree(cwd: Seq<u8>, root: Seq<u8>, others: Seq<Seq<u8>>) -> bool {
    lies_below(cwd, root) && forall|i: int|
        0 <= i < others.len() ==> !lies_below(cwd, #[trigger] others[i])
}

fn in_worktree(cwd: &[u8], root: &[u8], others: &Vec<Vec<u8>>) -> (result: bool)
    ensures
        result == lies_in_worktree(cwd@, root@, rows(others@)),
{
    if !below(cwd, root) {
        return false;
    }
    let mut index: usize = 0;
    while index < others.len()
        invariant
            index <= others.len(),
            forall|i: int| 0 <= i < index ==> !lies_below(cwd@, #[trigger] rows(others@)[i]),
        decreases others.len() - index,
    {
        if below(cwd, others[index].as_slice()) {
            proof {
                assert(lies_below(cwd@, rows(others@)[index as int]));
            }
            return false;
        }
        index += 1;
    }
    true
}

/// The process of the worktree that an observation shows. The observer itself never counts, and
/// a pid that was given to another process between the two looks is left out.
pub open spec fn observed_process(
    root: Seq<u8>,
    others: Seq<Seq<u8>>,
    own_pid: u32,
    seen: ProcessObservation,
) -> Option<WorktreeProcessText> {
    match (
        number_value(seen.name@, 10, u32::MAX as nat),
        seen.stat,
        seen.cwd,
        seen.command_line,
        seen.stat_again,
    ) {
        (
            Some(pid),
            Some(stat),
            Some(cwd),
            Some(command_line),
            Some(stat_again),
        ) => match start_time_of(stat@) {
            Some(start_time) => if pid != own_pid && lies_in_worktree(cwd@, root, others)
                && command_arguments(command_line@).len() > 0 && start_time_of(stat_again@) == Some(
                start_time,
            ) {
                Some(
                    WorktreeProcessText {
                        pid: pid as u32,
                        start_time: start_time as u64,
                        argv: command_arguments(command_line@),
                        environment: optional_bytes(seen.environment),
                    },
                )
            } else {
                None
            },
            None => None,
        },
        _ => None,
    }
}

/// The processes that a list of observations shows, in order.
pub open spec fn observed_processes(
    root: Seq<u8>,
    others: Seq<Seq<u8>>,
    own_pid: u32,
    seen: Seq<ProcessObservation>,
) -> Seq<WorktreeProcessText>
    decreases seen.len(),
{
    if seen.len() == 0 {
        Seq::empty()
    } else {
        let before = observed_processes(root, others, own_pid, seen.drop_last());
        match observed_process(root, others, own_pid, seen.last()) {
            Some(process) => before.push(process),
            None => before,
        }
    }
}

fn copy_optional_bytes(value: &Option<Vec<u8>>) -> (result: Option<Vec<u8>>)
    ensures
        optional_bytes(result) == optional_bytes(*value),
{
    match value {
        Some(bytes) => {
            let copy = crate::text::copy_range(bytes.as_slice(), 0, bytes.len());
            proof {
                assert(copy@ =~= bytes@);
            }
            Some(copy)
        },
        None => None,
    }
}

/// What an optional process is.
pub open spec fn optional_process(value: Option<WorktreeProcess>) -> Option<WorktreeProcessText> {
    match value {
        Some(process) => Some(process@),
        None => None,
    }
}

/// The process of the worktree that an observation shows.
pub fn observe_process(
    root: &[u8],
    others: &Vec<Vec<u8>>,
    own_pid: u32,
    seen: &ProcessObservation,
) -> (result: Option<WorktreeProcess>)
    ensures
        optional_process(result) == observed_process(root@, rows(others@), own_pid, *seen),
{
    let name = characters(seen.name.as_str());
    match (
        parse_number(name.as_slice(), 10, u32::MAX as u64),
        &seen.stat,
        &seen.cwd,
        &seen.command_line,
        &seen.stat_again,
    ) {
        (Some(number), Some(stat), Some(cwd), Some(command_line), Some(stat_again)) => {
            let pid: u32 = number as u32;
            if pid == own_pid {
                return None;
            }
            let start_time = match read_process_start_time(stat.as_str()) {
                Some(start_time) => start_time,
                None => {
                    return None;
                },
            };
            if !in_worktree(cwd.as_slice(), root, others) {
                return None;
            }
            let argv = split_command_line(command_line.as_slice());
            proof {
                assert(texts(argv@).len() == argv.len());
            }
            if argv.len() == 0 {
                return None;
            }
            match read_process_start_time(stat_again.as_str()) {
                Some(again) => {
                    if again != start_time {
                        return None;
                    }
                },
                None => {
                    return None;
                },
            }
            Some(
                WorktreeProcess {
                    pid,
                    start_time,
                    argv,
                    environment: copy_optional_bytes(&seen.environment),
                },
            )
        },
        _ => None,
    }
}

impl Ranked for WorktreeProcess {
    type Key = u32;

    open spec fn key(&self) -> u32 {
        self.pid
    }

    open spec fn precedes(left: u32, right: u32) -> bool {
        left < right
    }

    proof fn precedes_total(left: u32, right: u32) {
    }

    proof fn precedes_strict(left: u32, right: u32) {
    }

    proof fn precedes_transitive(first: u32, second: u32, third: u32) {
    }

    fn rank(&self, other: &Self) -> (result: Rank) {
        if self.pid < other.pid {
            Rank::Before
        } else if self.pid == other.pid {
            Rank::Same
        } else {
            Rank::Behind
        }
    }
}

/// Whether a list of processes is another one, sorted by pid.
pub open spec fn sorts_by_pid(sorted: Seq<WorktreeProcess>, list: Seq<WorktreeProcess>) -> bool {
    &&& ascending::<WorktreeProcess>(keys(sorted))
    &&& forall|pid: u32|
        #![trigger sorted.filter(has_key::<WorktreeProcess>(pid))]
        sorted.filter(has_key::<WorktreeProcess>(pid)) == list.filter(
            has_key::<WorktreeProcess>(pid),
        )
    &&& sorted.to_multiset() == list.to_multiset()
}

/// Whether a list holds the processes that some observations show, sorted by pid.
pub open spec fn shows_worktree(
    processes: Seq<WorktreeProcess>,
    root: Seq<u8>,
    others: Seq<Seq<u8>>,
    own_pid: u32,
    seen: Seq<ProcessObservation>,
) -> bool {
    exists|found: Seq<WorktreeProcess>|
        #![trigger sorts_by_pid(processes, found)]
        worktree_texts(found) == observed_processes(root, others, own_pid, seen) && sorts_by_pid(
            processes,
            found,
        )
}

/// Picks every live process whose cwd is inside the canonical worktree, sorted by pid.
/// Processes running in *other* Git worktrees of the same repository
/// are excluded even when their paths sit below the root (for example
/// `<root>/.worktrees/<name>`), so one worktree's stack never claims another's.
pub fn find_worktree_processes(
    root: &[u8],
    others: &Vec<Vec<u8>>,
    own_pid: u32,
    seen: &Vec<ProcessObservation>,
) -> (result: Vec<WorktreeProcess>)
    ensures
        shows_worktree(result@, root@, rows(others@), own_pid, seen@),
{
    let mut found: Vec<WorktreeProcess> = Vec::new();
    let mut index: usize = 0;
    proof {
        assert(worktree_texts(found@) =~= Seq::<WorktreeProcessText>::empty());
    }
    while index < seen.len()
        invariant
            index <= seen.len(),
            worktree_texts(found@) == observed_processes(
                root@,
                rows(others@),
                own_pid,
                seen@.take(index as int),
            ),
        decreases seen.len() - index,
    {
        proof {
            assert(seen@.take(index + 1).drop_last() =~= seen@.take(index as int));
            assert(seen@.take(index + 1).last() == seen@[index as int]);
        }
        match observe_process(root, others, own_pid, &seen[index]) {
            Some(process) => {
                let ghost before = worktree_texts(found@);
                let ghost added = process@;
                found.push(process);
                proof {
                    assert(worktree_texts(found@) =~= before.push(added));
                }
            },
            None => {},
        }
        index += 1;
    }
    proof {
        assert(seen@.take(seen.len() as int) =~= seen@);
    }
    let ghost unsorted = found@;
    let result = sorted_stably(found);
    proof {
        assert(sorts_by_pid(result@, unsorted));
    }
    result
}

/// The worktrees named in the first `count` lines of a listing that lie below a root: the paths
/// behind `worktree `, without the root itself.
pub open spec fn listed_worktrees(
    root: Seq<u8>,
    lines: Seq<Seq<char>>,
    count: int,
) -> Seq<Seq<u8>>
    decreases count,
{
    if count <= 0 {
        Seq::empty()
    } else {
        let before = listed_worktrees(root, lines, count - 1);
        match after_prefix(lines[count - 1], "worktree "@) {
            Some(path) => if byte_components(encode_utf8(path)) != byte_components(root)
                && lies_below(encode_utf8(path), root) {
                before.push(encode_utf8(path))
            } else {
                before
            },
            None => before,
        }
    }
}

/// Lists the repository's other Git worktrees whose paths sit below the root, from the output
/// of `git worktree list --porcelain`.
pub fn sibling_git_worktrees(root: &[u8], listing: &[u8]) -> (result: Vec<Vec<u8>>)
    ensures
        rows(result@) == listed_worktrees(
            root@,
            lines_of(lossy(listing@)),
            lines_of(lossy(listing@)).len() as int,
        ),
{
    let text = lossy_text(listing);
    worktrees_in_listing(root, text.as_str())
}

/// Lists the other worktrees below a root that a listing names.
pub fn worktrees_in_listing(root: &[u8], listing: &str) -> (result: Vec<Vec<u8>>)
    ensures
        rows(result@) == listed_worktrees(
            root@,
            lines_of(listing@),
            lines_of(listing@).len() as int,
        ),
{
    let source = characters(listing);
    let lines = split_lines(source.as_slice());
    let ghost shown = lines_of(listing@);
    let mut result: Vec<Vec<u8>> = Vec::new();
    let mut index: usize = 0;
    proof {
        assert(rows(result@) =~= Seq::<Seq<u8>>::empty());
        assert(rows(lines@).len() == lines.len());
    }
    while index < lines.len()
        invariant
            index <= lines.len(),
            rows(lines@) == shown,
            shown.len() == lines.len(),
            rows(result@) == listed_worktrees(root@, shown, index as int),
        decreases lines.len() - index,
    {
        proof {
            assert(shown[index as int] == lines@[index as int]@);
        }
        match strip_prefix(lines[index].as_slice(), "worktree ") {
            Some(path) => {
                let text = text_of(path.as_slice());
                let bytes = text.as_str().as_bytes();
                if !same_path(bytes, root) && below(bytes, root) {
                    let ghost before = rows(result@);
                    let copy = crate::text::copy_range(bytes, 0, bytes.len());
                    proof {
                        assert(copy@ =~= encode_utf8(path@));
                    }
                    result.push(copy);
                    proof {
                        assert(rows(result@) =~= before.push(encode_utf8(path@)));
                    }
                }
            },
            None => {},
        }
        index += 1;
    }
    result
}

/// The parent pid in the first `count` lines of a status file: the first line `PPid:` whose
/// rest is a number.
pub open spec fn parent_in_lines(lines: Seq<Seq<char>>, from: int) -> Option<nat>
    decreases lines.len() - from,
{
    if from >= lines.len() {
        None
    } else {
        match after_prefix(lines[from], "PPid:"@) {
            Some(value) => match number_value(trimmed(value), 10, u32::MAX as nat) {
                Some(parent) => Some(parent),
                None => parent_in_lines(lines, from + 1),
            },
            None => parent_in_lines(lines, from + 1),
        }
    }
}

/// The parent pid that a status file names.
pub open spec fn parent_in_status(status: Seq<char>) -> Option<nat> {
    parent_in_lines(lines_of(status), 0)
}

/// What an optional pid is.
pub open spec fn optional_pid(value: Option<u32>) -> Option<nat> {
    match value {
        Some(pid) => Some(pid as nat),
        None => None,
    }
}

/// Reads the parent pid out of `/proc/<pid>/status`.
pub fn read_parent_pid(status: &str) -> (result: Option<u32>)
    ensures
        optional_pid(result) == parent_in_status(status@),
{
    let source = characters(status);
    let lines = split_lines(source.as_slice());
    let ghost shown = lines_of(status@);
    proof {
        assert(rows(lines@).len() == lines.len());
    }
    let mut index: usize = 0;
    while index < lines.len()
        invariant
            index <= lines.len(),
            rows(lines@) == shown,
            shown.len() == lines.len(),
            shown == lines_of(status@),
            parent_in_status(status@) == parent_in_lines(shown, index as int),
        decreases lines.len() - index,
    {
        proof {
            assert(shown[index as int] == lines@[index as int]@);
        }
        match strip_prefix(lines[index].as_slice(), "PPid:") {
            Some(value) => {
                let bare = trim_characters(value.as_slice());
                match parse_number(bare.as_slice(), 10, u32::MAX as u64) {
                    Some(parent) => {
                        return Some(parent as u32);
                    },
                    None => {},
                }
            },
            None => {},
        }
        index += 1;
    }
    None
}

/// Whether a process is below another: it is that process, or one of its ancestors is. The
/// chain ends at the first processes of the machine.
pub open spec fn descends_from(
    links: Seq<ParentLink>,
    pid: u32,
    ancestor: u32,
    limit: nat,
) -> bool
    decreases limit,
{
    if limit == 0 {
        false
    } else if pid == ancestor {
        true
    } else if pid <= 1 {
        false
    } else {
        match parent_of(links, pid) {
            Some(parent) => descends_from(links, parent, ancestor, (limit - 1) as nat),
            None => false,
        }
    }
}

/// Whether a process is another one or below it.
pub fn process_descends_from(links: &Vec<ParentLink>, pid: u32, ancestor: u32) -> (result: bool)
    ensures
        result == descends_from(links@, pid, ancestor, CHAIN_LIMIT as nat),
{
    let mut current: u32 = pid;
    let mut left: usize = CHAIN_LIMIT;
    while left > 0
        invariant
            descends_from(links@, pid, ancestor, CHAIN_LIMIT as nat) == descends_from(
                links@,
                current,
                ancestor,
                left as nat,
            ),
        decreases left,
    {
        if current == ancestor {
            return true;
        }
        if current <= 1 {
            return false;
        }
        match find_parent(links, current) {
            Some(parent) => {
                current = parent;
            },
            None => {
                return false;
            },
        }
        left -= 1;
    }
    false
}

/// What one look at the processes and sockets of a worktree showed.
#[derive(Debug, PartialEq, Eq)]
pub struct DiscoverySnapshot {
    pub processes: Vec<WorktreeProcess>,
    pub sockets: SocketSnapshot,
}

/// The runs of a target that a snapshot shows.
pub open spec fn snapshot_runs(snapshot: DiscoverySnapshot, target: TargetText) -> Seq<RunText> {
    target_runs(
        worktree_texts(snapshot.processes@),
        snapshot.sockets.links@,
        target,
        snapshot.processes@.len() as int,
    )
}

/// The pids of the processes of a worktree.
pub open spec fn worktree_pids(processes: Seq<WorktreeProcess>) -> Seq<u32> {
    Seq::new(processes.len(), |i: int| processes[i].pid)
}

impl DiscoverySnapshot {
    /// Takes together what was read of all processes and of the sockets.
    pub fn capture(
        root: &[u8],
        others: &Vec<Vec<u8>>,
        own_pid: u32,
        seen: &Vec<ProcessObservation>,
        sockets: SocketSnapshot,
    ) -> (result: Self)
        ensures
            result.sockets == sockets,
            shows_worktree(result.processes@, root@, rows(others@), own_pid, seen@),
    {
        let processes = find_worktree_processes(root, others, own_pid, seen);
        DiscoverySnapshot { processes, sockets }
    }

    /// The runs of a launch target.
    pub fn target_processes(&self, target: &LaunchTarget) -> (result: Vec<LaunchTargetProcess>)
        ensures
            run_texts(result@) == snapshot_runs(*self, target@),
    {
        find_launch_target_processes(&self.processes, &self.sockets.links, target)
    }

    /// The listeners of the worktree, by the process whose tree owns them.
    pub fn endpoints_by_process(&self) -> (result: Vec<EndpointGroup>)
        ensures
            attributes_listeners(result@, self.sockets, worktree_pids(self.processes@)),
    {
        let ghost shown = worktree_pids(self.processes@);
        let mut pids: Vec<u32> = Vec::new();
        let mut index: usize = 0;
        while index < self.processes.len()
            invariant
                index <= self.processes.len(),
                shown == worktree_pids(self.processes@),
                pids@ == shown.take(index as int),
            decreases self.processes.len() - index,
        {
            pids.push(self.processes[index].pid);
            index += 1;
            proof {
                assert(shown.take(index as int) =~= shown.take(index - 1).push(
                    self.processes@[index - 1].pid,
                ));
            }
        }
        proof {
            assert(shown.take(shown.len() as int) =~= shown);
        }
        find_process_endpoints_by_process(&pids, &self.sockets)
    }
}

/// The observer is never among the processes that it finds.
pub proof fn observer_is_never_found(
    root: Seq<u8>,
    others: Seq<Seq<u8>>,
    own_pid: u32,
    seen: Seq<ProcessObservation>,
)
    ensures
        forall|i: int|
            0 <= i < observed_processes(root, others, own_pid, seen).len() ==> (
            #[trigger] observed_processes(root, others, own_pid, seen)[i]).pid != own_pid,
    decreases seen.len(),
{
    if seen.len() > 0 {
        observer_is_never_found(root, others, own_pid, seen.drop_last());
    }
}

/// A process that runs in another worktree below the root is never found, nor one outside it.
pub proof fn other_worktrees_are_never_claimed(
    root: Seq<u8>,
    others: Seq<Seq<u8>>,
    own_pid: u32,
    seen: Seq<ProcessObservation>,
    process: WorktreeProcessText,
)
    requires
        observed_processes(root, others, own_pid, seen).contains(process),
    ensures
        exists|i: int|
            0 <= i < seen.len() && #[trigger] observed_process(root, others, own_pid, seen[i])
                == Some(process) && seen[i].cwd is Some && lies_in_worktree(
                seen[i].cwd->0@,
                root,
                others,
            ),
    decreases seen.len(),
{
    if seen.len() > 0 {
        let before = observed_processes(root, others, own_pid, seen.drop_last());
        if before.contains(process) {
            other_worktrees_are_never_claimed(root, others, own_pid, seen.drop_last(), process);
            let i = choose|i: int|
                0 <= i < seen.drop_last().len() && #[trigger] observed_process(
                    root,
                    others,
                    own_pid,
                    seen.drop_last()[i],
                ) == Some(process);
            assert(observed_process(root, others, own_pid, seen[i]) == Some(process));
        } else {
            assert(observed_process(root, others, own_pid, seen[seen.len() - 1]) == Some(process));
        }
    }
}

/// Whether a process begins a run of a target.
pub open spec fn begins_run(
    processes: Seq<WorktreeProcessText>,
    links: Seq<ParentLink>,
    target: TargetText,
    process: WorktreeProcessText,
) -> bool {
    belongs_to_target(process, target) && run_root(
        links,
        member_pids(processes, target),
        process.pid,
    ) == Some(process.pid)
}

/// The runs are exactly the processes that belong to the target and have none of it above
/// them.
pub proof fn runs_are_the_outermost_processes(
    processes: Seq<WorktreeProcessText>,
    links: Seq<ParentLink>,
    target: TargetText,
    identity: ProcessIdentity,
)
    ensures
        run_identities(target_runs(processes, links, target, processes.len() as int)).contains(
            identity,
        ) <==> exists|i: int|
            0 <= i < processes.len() && begins_run(
                processes,
                links,
                target,
                #[trigger] processes[i],
            ) && processes[i].pid == identity.pid && processes[i].start_time == identity.start_time,
{
    lemma_runs(processes, links, target, identity, processes.len() as int);
}

proof fn lemma_runs(
    processes: Seq<WorktreeProcessText>,
    links: Seq<ParentLink>,
    target: TargetText,
    identity: ProcessIdentity,
    count: int,
)
    requires
        0 <= count <= processes.len(),
    ensures
        run_identities(target_runs(processes, links, target, count)).contains(identity)
            <==> exists|i: int|
            0 <= i < count && begins_run(processes, links, target, #[trigger] processes[i])
                && processes[i].pid == identity.pid && processes[i].start_time
                == identity.start_time,
    decreases count,
{
    if count > 0 {
        lemma_runs(processes, links, target, identity, count - 1);
        let before = target_runs(processes, links, target, count - 1);
        let after = target_runs(processes, links, target, count);
        if begins_run(processes, links, target, processes[count - 1]) {
            let added = ProcessIdentity {
                pid: processes[count - 1].pid,
                start_time: processes[count - 1].start_time,
            };
            assert(run_identities(after) =~= run_identities(before).push(added));
            if run_identities(before).contains(identity) {
                let at = choose|at: int|
                    0 <= at < before.len() && run_identities(before)[at] == identity;
                assert(run_identities(after)[at] == identity);
            }
            if added == identity {
                assert(run_identities(after)[before.len() as int] == identity);
            }
        }
    }
}

/// Every process that belongs to a target is part of a run: it or a process above it that
/// belongs to the target is the outermost one.
pub proof fn members_have_a_root(
    processes: Seq<WorktreeProcessText>,
    links: Seq<ParentLink>,
    target: TargetText,
    index: int,
)
    requires
        0 <= index < processes.len(),
        belongs_to_target(processes[index], target),
    ensures
        run_root(links, member_pids(processes, target), processes[index].pid) matches Some(root)
            && member_pids(processes, target).contains(root) && ancestry(
            links,
            processes[index].pid,
            CHAIN_LIMIT as nat,
        ).contains(root),
{
    let members = member_pids(processes, target);
    let chain = ancestry(links, processes[index].pid, CHAIN_LIMIT as nat);
    lemma_member(processes, target, index);
    assert(chain[0] == processes[index].pid);
    lemma_outermost(chain, members, 0);
}

proof fn lemma_member(processes: Seq<WorktreeProcessText>, target: TargetText, index: int)
    requires
        0 <= index < processes.len(),
        belongs_to_target(processes[index], target),
    ensures
        member_pids(processes, target).contains(processes[index].pid),
    decreases processes.len(),
{
    let before = member_pids(processes.drop_last(), target);
    let all = member_pids(processes, target);
    if index == processes.len() - 1 {
        assert(all[before.len() as int] == processes[index].pid);
    } else {
        lemma_member(processes.drop_last(), target, index);
        let at = choose|at: int| 0 <= at < before.len() && before[at] == processes[index].pid;
        assert(all[at] == processes[index].pid);
    }
}

proof fn lemma_outermost(chain: Seq<u32>, list: Seq<u32>, index: int)
    requires
        0 <= index < chain.len(),
        list.contains(chain[index]),
    ensures
        outermost_of(chain, list) matches Some(root) && list.contains(root) && chain.contains(root),
    decreases chain.len(),
{
    if list.contains(chain.last()) {
        assert(chain[chain.len() - 1] == chain.last());
    } else {
        lemma_outermost(chain.drop_last(), list, index);
        let root = outermost_of(chain, list)->0;
        let at = choose|at: int|
            0 <= at < chain.drop_last().len() && chain.drop_last()[at] == root;
        assert(chain[at] == root);
    }
}

/// A bare interactive shell never counts as a run for the identity that it inherited.
pub proof fn bare_shells_are_no_runs(process: WorktreeProcessText, target: TargetText)
    requires
        is_interactive_shell(process.argv),
        belongs_to_target(process, target),
    ensures
        shows_signature(process.argv, target_signature(target)),
{
}

/// Whether an argument is an entry, or a path that ends in the components of one.
pub open spec fn argument_is_or_ends_in(argument: Seq<char>, entry: Seq<char>) -> bool {
    argument == entry || (text_components(entry).len() <= text_components(argument).len()
        && text_components(entry) == text_components(argument).skip(
        text_components(argument).len() - text_components(entry).len(),
    ))
}

/// Whether each entry of a target's signature has an argument of its own in a command line: the
/// entries of the process match, or of the command where there is none.
pub open spec fn every_entry_is_matched(argv: Seq<Seq<char>>, target: TargetText) -> bool {
    forall|entry: Seq<char>| #[trigger]
        is_entry(target, entry) ==> exists|argument: Seq<char>| #[trigger]
            argv.contains(argument) && argument_is_or_ends_in(argument, entry)
}

/// Whether a text is an entry of a target's process match, or of its command where there is no
/// process match.
pub open spec fn is_entry(target: TargetText, entry: Seq<char>) -> bool {
    target.process_match.contains(entry) || target.process_match.len() == 0
        && target.argv.contains(entry)
}

/// Whether an environment, entries separated by zero bytes, names a target as the one that
/// Portboard started.
pub open spec fn names_target(environment: Option<Seq<u8>>, target_id: Seq<char>) -> bool {
    environment is Some && pieces_at(environment->0, 0u8).contains(
        encode_utf8("PORTBOARD_TARGET_ID="@ + target_id),
    )
}

/// A process is a part of a target where each entry of the signature is or ends an argument of
/// it, or where it is no bare shell and its environment names the target. So a process whose
/// environment does not is ruled out by a single entry that no argument matches.
pub proof fn members_match_every_entry(process: WorktreeProcessText, target: TargetText)
    ensures
        belongs_to_target(process, target) <==> every_entry_is_matched(process.argv, target) || (
        names_target(process.environment, target.id) && !is_interactive_shell(process.argv)),
        belongs_to_target(process, target) && !names_target(process.environment, target.id)
            ==> every_entry_is_matched(process.argv, target),
{
    let argv = process.argv;
    let entries = target_signature(target);
    assert forall|argument: Seq<char>, entry: Seq<char>| #[trigger]
        argument_is_or_ends_in(argument, entry) <==> argument_matches(argument, entry) by {
        let whole = text_components(argument);
        let tail = text_components(entry);
        if tail.len() <= whole.len() {
            assert(tail.is_suffix_of(whole) <==> tail == whole.skip(whole.len() - tail.len())) by {
                assert(whole.skip(whole.len() - tail.len()) =~= whole.subrange(
                    whole.len() - tail.len(),
                    whole.len() as int,
                ));
            }
        }
    }
    if shows_signature(argv, target_signature(target)) {
        assert forall|entry: Seq<char>| #[trigger] is_entry(target, entry) implies exists|
            argument: Seq<char>,
        | #[trigger]
            argv.contains(argument) && argument_is_or_ends_in(argument, entry) by {
            let at = choose|at: int| 0 <= at < entries.len() && entries[at] == entry;
            assert(some_argument_matches(argv, entries[at]));
            let i = choose|i: int|
                0 <= i < argv.len() && argument_matches(#[trigger] argv[i], entry);
            assert(argv.contains(argv[i]));
            assert(argument_is_or_ends_in(argv[i], entry));
        }
    }
    if every_entry_is_matched(argv, target) {
        assert forall|at: int| 0 <= at < entries.len() implies some_argument_matches(
            argv,
            #[trigger] entries[at],
        ) by {
            assert(entries.contains(entries[at]));
            assert(is_entry(target, entries[at]));
            let argument = choose|argument: Seq<char>| #[trigger]
                argv.contains(argument) && argument_is_or_ends_in(argument, entries[at]);
            let i = choose|i: int| 0 <= i < argv.len() && argv[i] == argument;
            assert(argument_matches(argv[i], entries[at]));
        }
    }
}

/// A run begins with a process of the worktree whose command line is that of the run, and in
/// which each entry of the target's signature is matched unless its environment names the
/// target.
pub proof fn runs_match_every_entry(
    processes: Seq<WorktreeProcessText>,
    links: Seq<ParentLink>,
    target: TargetText,
    count: int,
    run: RunText,
)
    requires
        0 <= count <= processes.len(),
        target_runs(processes, links, target, count).contains(run),
    ensures
        exists|i: int|
            0 <= i < count && (#[trigger] processes[i]).pid == run.pid && processes[i].start_time
                == run.start_time && processes[i].argv == run.argv && (every_entry_is_matched(
                run.argv,
                target,
            ) || names_target(processes[i].environment, target.id) && !is_interactive_shell(
                run.argv,
            )),
    decreases count,
{
    if count > 0 {
        let before = target_runs(processes, links, target, count - 1);
        let after = target_runs(processes, links, target, count);
        let at = choose|at: int| 0 <= at < after.len() && after[at] == run;
        if at < before.len() {
            assert(before[at] == run);
            runs_match_every_entry(processes, links, target, count - 1, run);
            let i = choose|i: int|
                0 <= i < count - 1 && (#[trigger] processes[i]).pid == run.pid
                    && processes[i].start_time == run.start_time && processes[i].argv == run.argv
                    && (every_entry_is_matched(run.argv, target) || names_target(
                    processes[i].environment,
                    target.id,
                ) && !is_interactive_shell(run.argv));
            assert(processes[i].pid == run.pid);
        } else {
            members_match_every_entry(processes[count - 1], target);
            assert(processes[count - 1].pid == run.pid);
        }
    }
}

/// Whether a list of links gives a process a parent: some link does, and no later one speaks of
/// the process.
pub open spec fn is_parent(links: Seq<ParentLink>, child: u32, parent: u32) -> bool {
    exists|i: int|
        0 <= i < links.len() && #[trigger] links[i] == (ParentLink { pid: child, parent })
            && forall|j: int| i < j < links.len() ==> (#[trigger] links[j]).pid != child
}

/// The parent of a process is the one that its last link gives, and a process has none only
/// where no link speaks of it.
pub proof fn the_last_link_counts(links: Seq<ParentLink>, pid: u32, parent: u32)
    ensures
        parent_of(links, pid) == Some(parent) <==> is_parent(links, pid, parent),
        parent_of(links, pid) is None <==> forall|i: int|
            0 <= i < links.len() ==> (#[trigger] links[i]).pid != pid,
    decreases links.len(),
{
    if links.len() > 0 {
        let fewer = links.drop_last();
        the_last_link_counts(fewer, pid, parent);
        let last = links.len() - 1;
        if links[last].pid == pid {
            if links[last].parent == parent {
                assert(links[last] == (ParentLink { pid, parent }));
            }
        } else {
            if is_parent(fewer, pid, parent) {
                let i = choose|i: int|
                    0 <= i < fewer.len() && #[trigger] fewer[i] == (ParentLink { pid, parent })
                        && forall|j: int| i < j < fewer.len() ==> (#[trigger] fewer[j]).pid != pid;
                assert(links[i] == (ParentLink { pid, parent }));
                assert forall|j: int| i < j < links.len() implies (#[trigger] links[j]).pid
                    != pid by {
                    if j < last {
                        assert(fewer[j] == links[j]);
                    }
                }
            }
            if is_parent(links, pid, parent) {
                let i = choose|i: int|
                    0 <= i < links.len() && #[trigger] links[i] == (ParentLink { pid, parent })
                        && forall|j: int| i < j < links.len() ==> (#[trigger] links[j]).pid != pid;
                assert(fewer[i] == (ParentLink { pid, parent }));
                assert forall|j: int| i < j < fewer.len() implies (#[trigger] fewer[j]).pid
                    != pid by {
                    assert(fewer[j] == links[j]);
                }
            }
            if forall|i: int| 0 <= i < fewer.len() ==> (#[trigger] fewer[i]).pid != pid {
                assert forall|i: int| 0 <= i < links.len() implies (#[trigger] links[i]).pid
                    != pid by {
                    if i < last {
                        assert(fewer[i] == links[i]);
                    }
                }
            }
            if forall|i: int| 0 <= i < links.len() ==> (#[trigger] links[i]).pid != pid {
                assert forall|i: int| 0 <= i < fewer.len() implies (#[trigger] fewer[i]).pid
                    != pid by {
                    assert(fewer[i] == links[i]);
                }
            }
        }
    }
}

/// Whether a row of processes leads upwards: each is followed by its parent, which is neither
/// itself nor one of the first processes of the machine, for at most 128 processes.
pub open spec fn leads_upwards(links: Seq<ParentLink>, path: Seq<u32>) -> bool {
    &&& 1 <= path.len() <= 128
    &&& forall|i: int|
        0 <= i < path.len() - 1 ==> is_parent(links, #[trigger] path[i], path[i + 1])
            && path[i + 1] > 1 && path[i + 1] != path[i]
}

/// Whether a row of processes that leads upwards ends where nothing follows: at a process whose
/// parent is unknown, itself or one of the first processes of the machine, or at the limit.
pub open spec fn leads_to_the_top(links: Seq<ParentLink>, path: Seq<u32>) -> bool {
    &&& leads_upwards(links, path)
    &&& path.len() == 128 || forall|parent: u32| #[trigger]
        is_parent(links, path.last(), parent) ==> parent <= 1 || parent == path.last()
}

/// The chain of a process begins with whatever leads upwards from it, and is all that leads to
/// the top.
pub proof fn chains_follow_every_parent(links: Seq<ParentLink>, path: Seq<u32>)
    requires
        leads_upwards(links, path),
    ensures
        path.is_prefix_of(ancestry(links, path[0], CHAIN_LIMIT as nat)),
        leads_to_the_top(links, path) ==> path == ancestry(links, path[0], CHAIN_LIMIT as nat),
{
    lemma_chain(links, path, 0);
    assert(path.skip(0) =~= path);
}

proof fn lemma_chain(links: Seq<ParentLink>, path: Seq<u32>, from: int)
    requires
        leads_upwards(links, path),
        0 <= from < path.len(),
    ensures
        path.skip(from).is_prefix_of(ancestry(links, path[from], (128 - from) as nat)),
        leads_to_the_top(links, path) ==> path.skip(from) == ancestry(
            links,
            path[from],
            (128 - from) as nat,
        ),
    decreases path.len() - from,
{
    let chain = ancestry(links, path[from], (128 - from) as nat);
    if from == path.len() - 1 {
        assert(chain.len() > 0 && chain[0] == path[from]);
        assert(path.skip(from) =~= seq![path[from]]);
        if leads_to_the_top(links, path) {
            match parent_of(links, path[from]) {
                Some(parent) => {
                    the_last_link_counts(links, path[from], parent);
                    if path.len() == 128 {
                        assert(ancestry(links, parent, 0) =~= Seq::<u32>::empty());
                    } else {
                        assert(is_parent(links, path.last(), parent));
                    }
                },
                None => {},
            }
            assert(chain =~= seq![path[from]]);
        }
    } else {
        let parent = path[from + 1];
        assert(is_parent(links, path[from], path[from + 1]));
        the_last_link_counts(links, path[from], parent);
        lemma_chain(links, path, from + 1);
        let rest = ancestry(links, parent, (128 - from - 1) as nat);
        assert(chain =~= seq![path[from]] + rest);
        assert(path.skip(from) =~= seq![path[from]] + path.skip(from + 1));
        assert(path.skip(from) =~= chain.take(path.len() - from)) by {
            assert(path.skip(from + 1) == rest.take(path.len() - from - 1)) by {
                assert(path.skip(from + 1) =~= rest.subrange(0, path.skip(from + 1).len() as int));
            }
        }
    }
}

/// A process is part of the run that begins with the outermost process of the target on its
/// whole way up: the last one of it before the top. So a process below another one of the
/// target, however far, never begins a run, and one with none above it does.
pub proof fn runs_begin_at_the_outermost_member(
    links: Seq<ParentLink>,
    members: Seq<u32>,
    path: Seq<u32>,
    index: int,
)
    requires
        leads_to_the_top(links, path),
        0 <= index < path.len(),
        members.contains(path[index]),
        forall|j: int| index < j < path.len() ==> !members.contains(#[trigger] path[j]),
    ensures
        run_root(links, members, path[0]) == Some(path[index]),
{
    chains_follow_every_parent(links, path);
    lemma_outermost_at(path, members, index);
}

proof fn lemma_outermost_at(chain: Seq<u32>, list: Seq<u32>, index: int)
    requires
        0 <= index < chain.len(),
        list.contains(chain[index]),
        forall|j: int| index < j < chain.len() ==> !list.contains(#[trigger] chain[j]),
    ensures
        outermost_of(chain, list) == Some(chain[index]),
    decreases chain.len(),
{
    if index < chain.len() - 1 {
        assert(!list.contains(chain[chain.len() - 1]));
        lemma_outermost_at(chain.drop_last(), list, index);
    }
}

/// The processes of a target are those of the worktree in which each entry of its signature is
/// matched or whose environment names it, and no others.
pub proof fn member_pids_are_of_members(
    processes: Seq<WorktreeProcessText>,
    target: TargetText,
    pid: u32,
)
    ensures
        member_pids(processes, target).contains(pid) <==> exists|i: int|
            0 <= i < processes.len() && (#[trigger] processes[i]).pid == pid && (
            every_entry_is_matched(processes[i].argv, target) || names_target(
                processes[i].environment,
                target.id,
            ) && !is_interactive_shell(processes[i].argv)),
    decreases processes.len(),
{
    if processes.len() > 0 {
        let fewer = processes.drop_last();
        let last = processes.len() - 1;
        member_pids_are_of_members(fewer, target, pid);
        members_match_every_entry(processes[last], target);
        let before = member_pids(fewer, target);
        let after = member_pids(processes, target);
        if before.contains(pid) {
            let at = choose|at: int| 0 <= at < before.len() && before[at] == pid;
            assert(after[at] == pid);
            let i = choose|i: int|
                0 <= i < fewer.len() && (#[trigger] fewer[i]).pid == pid && (
                every_entry_is_matched(fewer[i].argv, target) || names_target(
                    fewer[i].environment,
                    target.id,
                ) && !is_interactive_shell(fewer[i].argv));
            assert(processes[i] == fewer[i]);
        }
        if belongs_to_target(processes[last], target) && processes[last].pid == pid {
            assert(after[before.len() as int] == pid);
        }
        if after.contains(pid) && !before.contains(pid) {
            let at = choose|at: int| 0 <= at < after.len() && after[at] == pid;
            if at < before.len() {
                assert(before[at] == pid);
            }
            assert(processes[last].pid == pid);
        }
        if !before.contains(pid) {
            assert forall|i: int|
                0 <= i < processes.len() && (#[trigger] processes[i]).pid == pid && (
                every_entry_is_matched(processes[i].argv, target) || names_target(
                    processes[i].environment,
                    target.id,
                ) && !is_interactive_shell(processes[i].argv)) implies after.contains(pid) by {
                if i < last {
                    assert(fewer[i] == processes[i]);
                }
            }
        }
    }
}

/// The members of a run that are taken for its metadata are the processes below its root whose
/// command line matches each entry of the signature, and no others.
pub proof fn metadata_members_match_every_entry(
    processes: Seq<WorktreeProcessText>,
    links: Seq<ParentLink>,
    members: Seq<u32>,
    target: TargetText,
    root: u32,
    identity: ProcessIdentity,
)
    ensures
        signature_members(processes, links, members, target_signature(target), root).contains(
            identity,
        ) <==> exists|i: int|
            0 <= i < processes.len() && (#[trigger] processes[i]).pid == identity.pid
                && processes[i].start_time == identity.start_time && identity.pid != root
                && every_entry_is_matched(processes[i].argv, target) && run_root(
                links,
                members,
                identity.pid,
            ) == Some(root),
    decreases processes.len(),
{
    if processes.len() > 0 {
        let fewer = processes.drop_last();
        let last = processes.len() - 1;
        let signature = target_signature(target);
        metadata_members_match_every_entry(fewer, links, members, target, root, identity);
        lemma_shows_every_entry(processes[last].argv, target);
        let before = signature_members(fewer, links, members, signature, root);
        let after = signature_members(processes, links, members, signature, root);
        if before.contains(identity) {
            let at = choose|at: int| 0 <= at < before.len() && before[at] == identity;
            assert(after[at] == identity);
            let i = choose|i: int|
                0 <= i < fewer.len() && (#[trigger] fewer[i]).pid == identity.pid
                    && fewer[i].start_time == identity.start_time && identity.pid != root
                    && every_entry_is_matched(fewer[i].argv, target) && run_root(
                    links,
                    members,
                    identity.pid,
                ) == Some(root);
            assert(processes[i] == fewer[i]);
        } else {
            if after.contains(identity) {
                let at = choose|at: int| 0 <= at < after.len() && after[at] == identity;
                if at < before.len() {
                    assert(before[at] == identity);
                }
                assert(processes[last].pid == identity.pid);
            }
            assert forall|i: int|
                0 <= i < processes.len() && (#[trigger] processes[i]).pid == identity.pid
                    && processes[i].start_time == identity.start_time && identity.pid != root
                    && every_entry_is_matched(processes[i].argv, target) && run_root(
                    links,
                    members,
                    identity.pid,
                ) == Some(root) implies after.contains(identity) by {
                if i < last {
                    assert(fewer[i] == processes[i]);
                } else {
                    assert(after[before.len() as int] == identity);
                }
            }
        }
    }
}

proof fn lemma_shows_every_entry(argv: Seq<Seq<char>>, target: TargetText)
    ensures
        shows_signature(argv, target_signature(target)) <==> every_entry_is_matched(argv, target),
{
    members_match_every_entry(
        WorktreeProcessText { pid: 0, start_time: 0, argv, environment: None },
        target,
    );
}

/// A process descends from another where its chain of parents leads there, however long within
/// the limit, and only there.
pub proof fn descent_follows_parents(links: Seq<ParentLink>, pid: u32, ancestor: u32)
    ensures
        descends_from(links, pid, ancestor, CHAIN_LIMIT as nat) <==> lies_under(
            links,
            pid,
            ancestor,
        ),
{
    if descends_from(links, pid, ancestor, 128) {
        let path = lemma_descent(links, pid, ancestor, 128);
        assert(leads_down_to(links, ancestor, path) && path[0] == pid && path.len() <= 128);
    }
    assert forall|path: Seq<u32>| #[trigger]
        leads_down_to(links, ancestor, path) && path[0] == pid && path.len() <= 128 implies
        descends_from(links, pid, ancestor, 128) by {
        lemma_descends(links, ancestor, path, 128);
    }
}

/// Whether a row of processes, each followed by its parent, ends with an ancestor and holds none
/// of the first processes of the machine before it.
pub open spec fn leads_down_to(links: Seq<ParentLink>, ancestor: u32, path: Seq<u32>) -> bool {
    &&& path.len() > 0
    &&& path.last() == ancestor
    &&& forall|i: int|
        0 <= i < path.len() - 1 ==> is_parent(links, #[trigger] path[i], path[i + 1]) && path[i] > 1
}

proof fn lemma_descends(links: Seq<ParentLink>, ancestor: u32, path: Seq<u32>, limit: nat)
    requires
        leads_down_to(links, ancestor, path),
        path.len() <= limit,
    ensures
        descends_from(links, path[0], ancestor, limit),
    decreases path.len(),
{
    if path[0] != ancestor {
        let rest = path.skip(1);
        assert(is_parent(links, path[0], path[1]));
        the_last_link_counts(links, path[0], path[1]);
        assert(rest.last() == ancestor);
        assert forall|i: int| 0 <= i < rest.len() - 1 implies is_parent(
            links,
            #[trigger] rest[i],
            rest[i + 1],
        ) && rest[i] > 1 by {
            assert(is_parent(links, path[i + 1], path[i + 1 + 1]));
        }
        lemma_descends(links, ancestor, rest, (limit - 1) as nat);
    }
}

proof fn lemma_descent(links: Seq<ParentLink>, pid: u32, ancestor: u32, limit: nat) -> (path: Seq<
    u32,
>)
    requires
        descends_from(links, pid, ancestor, limit),
    ensures
        leads_down_to(links, ancestor, path),
        path[0] == pid,
        path.len() <= limit,
    decreases limit,
{
    if pid == ancestor {
        seq![pid]
    } else {
        let parent = parent_of(links, pid)->0;
        the_last_link_counts(links, pid, parent);
        let rest = lemma_descent(links, parent, ancestor, (limit - 1) as nat);
        let path = seq![pid] + rest;
        assert(path.last() == rest.last());
        assert forall|i: int| 0 <= i < path.len() - 1 implies is_parent(
            links,
            #[trigger] path[i],
            path[i + 1],
        ) && path[i] > 1 by {
            if i > 0 {
                assert(is_parent(links, rest[i - 1], rest[i - 1 + 1]));
            }
        }
        path
    }
}

/// Whether a process is another one, or its chain of parents leads there within the limit.
pub open spec fn lies_under(links: Seq<ParentLink>, pid: u32, ancestor: u32) -> bool {
    exists|path: Seq<u32>| #[trigger]
        leads_down_to(links, ancestor, path) && path[0] == pid && path.len() <= 128
}

/// Whether a name is that of a shell.
pub open spec fn is_shell(name: Seq<char>) -> bool {
    seq![
        "bash"@,
        "sh"@,
        "zsh"@,
        "fish"@,
        "dash"@,
        "ksh"@,
        "csh"@,
        "tcsh"@,
        "nu"@,
        "elvish"@,
        "xonsh"@,
    ].contains(name)
}

/// A command line is a bare shell exactly where it is a single word that names a shell, by itself,
/// behind the dash of a login, or in any directory; a shell with arguments is none.
pub proof fn bare_shells_have_no_arguments(
    argv: Seq<Seq<char>>,
    directory: Seq<char>,
    name: Seq<char>,
)
    requires
        directory.len() > 0,
        name.len() > 0,
        !name.contains('/'),
        name[0] != '-',
        name[0] != '.',
    ensures
        argv.len() != 1 ==> !is_interactive_shell(argv),
        argv == seq![name] || argv == seq![seq!['-'] + name] || argv == seq![
            directory + seq!['/'] + name,
        ] || argv == seq![directory + seq!['/'] + (seq!['-'] + name)] ==> (is_interactive_shell(argv)
            <==> is_shell(name)),
{
    let login = seq!['-'] + name;
    assert(!login.contains('/')) by {
        if login.contains('/') {
            let at = choose|at: int| 0 <= at < login.len() && login[at] == '/';
            assert(name[at - 1] == '/');
        }
    }
    assert(name != seq!['.'] && name != seq!['.', '.']);
    assert(login[0] == '-');
    assert(login != seq!['.'] && login != seq!['.', '.']);
    file_names_stand_last(directory, name);
    file_names_stand_last(directory, login);
    assert(login.skip(1) =~= name);
    let shells = seq![
        "bash"@,
        "sh"@,
        "zsh"@,
        "fish"@,
        "dash"@,
        "ksh"@,
        "csh"@,
        "tcsh"@,
        "nu"@,
        "elvish"@,
        "xonsh"@,
    ];
    assert(shells[0] == "bash"@ && shells[1] == "sh"@ && shells[2] == "zsh"@ && shells[3]
        == "fish"@ && shells[4] == "dash"@ && shells[5] == "ksh"@ && shells[6] == "csh"@
        && shells[7] == "tcsh"@ && shells[8] == "nu"@ && shells[9] == "elvish"@ && shells[10]
        == "xonsh"@);
    assert(is_interactive_shell_name(name) <==> is_shell(name)) by {
        if is_shell(name) {
            let at = choose|at: int| 0 <= at < shells.len() && shells[at] == name;
            assert(0 <= at < 11);
        }
    }
}

/// A process is found by an observation exactly where its directory is the worktree or lies below
/// it and below none of the others, it is not the observer, its command line holds something, and
/// both looks show the same start time.
pub proof fn worktree_processes_are_found(
    root: Seq<u8>,
    others: Seq<Seq<u8>>,
    own_pid: u32,
    seen: ProcessObservation,
    process: WorktreeProcessText,
)
    ensures
        observed_process(root, others, own_pid, seen) == Some(process) <==> number_value(
            seen.name@,
            10,
            u32::MAX as nat,
        ) == Some(process.pid as nat) && process.pid != own_pid && (seen.stat matches Some(stat)
            && start_time_of(stat@) == Some(process.start_time as nat)) && (
        seen.stat_again matches Some(again) && start_time_of(again@) == Some(
            process.start_time as nat,
        )) && (seen.cwd matches Some(cwd) && lies_below(cwd@, root) && forall|i: int|
            0 <= i < others.len() ==> !lies_below(cwd@, #[trigger] others[i])) && (
        seen.command_line matches Some(line) && command_arguments(line@).len() > 0 && process.argv
            == command_arguments(line@)) && process.environment == optional_bytes(
            seen.environment,
        ),
{
    lemma_number_limit(seen.name@, u32::MAX as nat);
    if let Some(stat) = seen.stat {
        lemma_start_limit(stat@);
    }
}

proof fn lemma_number_limit(text: Seq<char>, limit: nat)
    ensures
        number_value(text, 10, limit) matches Some(value) ==> value <= limit,
{
}

proof fn lemma_start_limit(stat: Seq<char>)
    ensures
        start_time_of(stat) matches Some(value) ==> value <= u64::MAX,
{
}

/// The processes of a worktree are all that the observations show, and no others.
pub proof fn every_worktree_process_is_found(
    root: Seq<u8>,
    others: Seq<Seq<u8>>,
    own_pid: u32,
    seen: Seq<ProcessObservation>,
    process: WorktreeProcessText,
)
    ensures
        observed_processes(root, others, own_pid, seen).contains(process) <==> exists|i: int|
            0 <= i < seen.len() && #[trigger] observed_process(root, others, own_pid, seen[i])
                == Some(process),
    decreases seen.len(),
{
    if seen.len() > 0 {
        let fewer = seen.drop_last();
        let last = seen.len() - 1;
        every_worktree_process_is_found(root, others, own_pid, fewer, process);
        let before = observed_processes(root, others, own_pid, fewer);
        let after = observed_processes(root, others, own_pid, seen);
        if before.contains(process) {
            let at = choose|at: int| 0 <= at < before.len() && before[at] == process;
            assert(after[at] == process);
            let i = choose|i: int|
                0 <= i < fewer.len() && #[trigger] observed_process(root, others, own_pid, fewer[i])
                    == Some(process);
            assert(observed_process(root, others, own_pid, seen[i]) == Some(process));
        } else {
            if after.contains(process) {
                let at = choose|at: int| 0 <= at < after.len() && after[at] == process;
                if at < before.len() {
                    assert(before[at] == process);
                }
                assert(observed_process(root, others, own_pid, seen[last]) == Some(process));
            }
            assert forall|i: int|
                0 <= i < seen.len() && #[trigger] observed_process(root, others, own_pid, seen[i])
                    == Some(process) implies after.contains(process) by {
                if i < last {
                    assert(observed_process(root, others, own_pid, fewer[i]) == Some(process));
                } else {
                    assert(after[before.len() as int] == process);
                }
            }
        }
    }
}

/// The start time of a process stands in the twentieth field behind the command name, whatever
/// that name holds.
pub proof fn start_times_stand_behind_the_name(name: Seq<char>, rest: Seq<char>, start: nat)
    requires
        !rest.contains(')'),
    ensures
        start_time_of(name + seq![')'] + rest) == Some(start) <==> words(rest).len() >= 20
            && number_value(words(rest)[19], 10, u64::MAX as nat) == Some(start),
        start_time_of(rest) is None,
{
    texts_end_behind_the_last_separator(name, ')', rest);
}

/// The arguments of a command line are what stands between zero bytes, without what is empty: the
/// arguments on both sides of a zero byte are those of either side.
pub proof fn arguments_part_at_zero_bytes(left: Seq<u8>, right: Seq<u8>)
    ensures
        command_arguments(left + seq![0u8] + right) == command_arguments(left) + command_arguments(
            right,
        ),
        left.len() > 0 && !left.contains(0u8) ==> command_arguments(left) == seq![lossy(left)],
        command_arguments(Seq::empty()) == Seq::<Seq<char>>::empty(),
{
    let whole = left + seq![0u8] + right;
    pieces_part_at_separators(left, 0u8, right, only(0u8));
    let ahead = pieces_at(left, 0u8);
    let behind = pieces_at(right, 0u8);
    lemma_arguments_part(ahead, behind, behind.len() as int);
    assert(pieces_at(whole, 0u8) == ahead + behind);
    if left.len() > 0 && !left.contains(0u8) {
        assert forall|i: int| 0 <= i < left.len() implies !only(0u8)(#[trigger] left[i]) by {
            assert(left.contains(left[i]));
        }
        reveal_with_fuel(arguments_of, 2);
        assert(ahead == seq![left]);
        assert(command_arguments(left) =~= seq![lossy(left)]);
    }
    let none = Seq::<u8>::empty();
    pieces_part_at_separators(none, 0u8, none, only(0u8));
    reveal_with_fuel(arguments_of, 2);
    assert(pieces_at(none, 0u8) == seq![none]);
    assert(command_arguments(none) =~= Seq::<Seq<char>>::empty());
}

proof fn lemma_arguments_part(ahead: Seq<Seq<u8>>, behind: Seq<Seq<u8>>, count: int)
    requires
        0 <= count <= behind.len(),
    ensures
        arguments_of(ahead + behind, ahead.len() + count) == arguments_of(
            ahead,
            ahead.len() as int,
        ) + arguments_of(behind, count),
    decreases count,
{
    let all = ahead + behind;
    if count > 0 {
        lemma_arguments_part(ahead, behind, count - 1);
        assert(all[ahead.len() + count - 1] == behind[count - 1]);
        assert(arguments_of(all, ahead.len() + count) =~= arguments_of(ahead, ahead.len() as int)
            + arguments_of(behind, count));
    } else {
        lemma_arguments_prefix(ahead, behind, ahead.len() as int);
        assert(arguments_of(behind, 0) =~= Seq::<Seq<char>>::empty());
        assert(arguments_of(ahead, ahead.len() as int) + arguments_of(behind, 0) =~= arguments_of(
            ahead,
            ahead.len() as int,
        ));
    }
}

proof fn lemma_arguments_prefix(ahead: Seq<Seq<u8>>, behind: Seq<Seq<u8>>, count: int)
    requires
        0 <= count <= ahead.len(),
    ensures
        arguments_of(ahead + behind, count) == arguments_of(ahead, count),
    decreases count,
{
    if count > 0 {
        lemma_arguments_prefix(ahead, behind, count - 1);
        assert((ahead + behind)[count - 1] == ahead[count - 1]);
    }
}

/// The other worktrees are exactly the listed paths that lie below the root and are not the root
/// itself.
pub proof fn listed_worktrees_lie_below(
    root: Seq<u8>,
    lines: Seq<Seq<char>>,
    count: int,
    other: Seq<u8>,
)
    requires
        0 <= count <= lines.len(),
    ensures
        listed_worktrees(root, lines, count).contains(other) <==> lies_below(other, root)
            && byte_components(other) != byte_components(root) && exists|i: int, path: Seq<char>|
            0 <= i < count && #[trigger] lines[i] == "worktree "@ + path && other
                == #[trigger] encode_utf8(path),
    decreases count,
{
    if count > 0 {
        let last = count - 1;
        listed_worktrees_lie_below(root, lines, last, other);
        let before = listed_worktrees(root, lines, last);
        let after = listed_worktrees(root, lines, count);
        if let Some(path) = after_prefix(lines[last], "worktree "@) {
            prefixes_are_taken_off(lines[last], "worktree "@, path);
            if other == encode_utf8(path) && lies_below(other, root) && byte_components(other)
                != byte_components(root) {
                assert(after[before.len() as int] == other);
            }
        }
        if before.contains(other) {
            let at = choose|at: int| 0 <= at < before.len() && before[at] == other;
            assert(after[at] == other);
        } else {
            if after.contains(other) {
                let at = choose|at: int| 0 <= at < after.len() && after[at] == other;
                if at < before.len() {
                    assert(before[at] == other);
                }
                let path = after_prefix(lines[last], "worktree "@)->0;
                assert(lines[last] == "worktree "@ + path && other == encode_utf8(path));
            }
            assert forall|i: int, path: Seq<char>|
                0 <= i < count && #[trigger] lines[i] == "worktree "@ + path && other
                    == #[trigger] encode_utf8(path) && lies_below(other, root) && byte_components(
                    other,
                ) != byte_components(root) implies after.contains(other) by {
                if i == last {
                    prefixes_are_taken_off(lines[last], "worktree "@, path);
                    assert(after[before.len() as int] == other);
                }
            }
        }
    }
}

/// The parent of a process is what the first line says that begins with `PPid:` and holds a
/// number behind it.
pub proof fn parents_stand_in_their_line(lines: Seq<Seq<char>>, from: int)
    requires
        0 <= from <= lines.len(),
    ensures
        match parent_in_lines(lines, from) {
            Some(parent) => exists|i: int|
                from <= i < lines.len() && #[trigger] parent_line(lines[i]) == Some(parent)
                    && forall|j: int| from <= j < i ==> #[trigger] parent_line(lines[j]) is None,
            None => forall|i: int|
                from <= i < lines.len() ==> #[trigger] parent_line(lines[i]) is None,
        },
    decreases lines.len() - from,
{
    if from < lines.len() {
        parents_stand_in_their_line(lines, from + 1);
        if let Some(rest) = after_prefix(lines[from], "PPid:"@) {
            prefixes_are_taken_off(lines[from], "PPid:"@, rest);
        }
        assert(parent_line(lines[from]) == match after_prefix(lines[from], "PPid:"@) {
            Some(value) => number_value(trimmed(value), 10, u32::MAX as nat),
            None => None,
        }) by {
            let value = lines[from].skip(5);
            reveal_strlit("PPid:");
            prefixes_are_taken_off(lines[from], "PPid:"@, value);
        }
    }
}

/// The number that a line holds behind `PPid:`, with white space around it or none.
pub open spec fn parent_line(line: Seq<char>) -> Option<nat> {
    if line == "PPid:"@ + line.skip(5) {
        number_value(trimmed(line.skip(5)), 10, u32::MAX as nat)
    } else {
        None
    }
}

/// The processes of a worktree are listed by their pid, each that was observed and no others.
pub proof fn worktrees_are_listed_by_pid(
    processes: Seq<WorktreeProcess>,
    root: Seq<u8>,
    others: Seq<Seq<u8>>,
    own_pid: u32,
    seen: Seq<ProcessObservation>,
    process: WorktreeProcessText,
)
    requires
        shows_worktree(processes, root, others, own_pid, seen),
    ensures
        forall|i: int, j: int|
            0 <= i < j < processes.len() ==> (#[trigger] processes[i]).pid <= (
            #[trigger] processes[j]).pid,
        processes.len() == observed_processes(root, others, own_pid, seen).len(),
        worktree_texts(processes).contains(process) <==> observed_processes(
            root,
            others,
            own_pid,
            seen,
        ).contains(process),
{
    let found = choose|found: Seq<WorktreeProcess>|
        #![trigger sorts_by_pid(processes, found)]
        worktree_texts(found) == observed_processes(root, others, own_pid, seen) && sorts_by_pid(
            processes,
            found,
        );
    broadcast use vstd::seq_lib::group_to_multiset_ensures;

    assert(processes.to_multiset().len() == processes.len());
    assert(found.to_multiset().len() == found.len());
    assert(worktree_texts(found).len() == found.len());
    assert forall|i: int, j: int| 0 <= i < j < processes.len() implies (#[trigger] processes[i]).pid
        <= (#[trigger] processes[j]).pid by {
        assert(keys(processes)[i] == processes[i].pid);
        assert(keys(processes)[j] == processes[j].pid);
    }
    let shown = worktree_texts(processes);
    let listed = worktree_texts(found);
    if shown.contains(process) {
        let at = choose|at: int| 0 <= at < shown.len() && shown[at] == process;
        assert(processes.contains(processes[at]));
        assert(found.to_multiset().count(processes[at]) > 0);
        assert(found.contains(processes[at]));
        let i = choose|i: int| 0 <= i < found.len() && found[i] == processes[at];
        assert(listed[i] == process);
    }
    if listed.contains(process) {
        let at = choose|at: int| 0 <= at < listed.len() && listed[at] == process;
        assert(found.contains(found[at]));
        assert(processes.to_multiset().count(found[at]) > 0);
        assert(processes.contains(found[at]));
        let i = choose|i: int| 0 <= i < processes.len() && processes[i] == found[at];
        assert(shown[i] == process);
    }
}

/// A run names, for its metadata, exactly the processes below the one that it begins with whose
/// command line matches each entry of the signature.
pub proof fn runs_name_their_members(
    processes: Seq<WorktreeProcessText>,
    links: Seq<ParentLink>,
    target: TargetText,
    count: int,
    run: RunText,
    identity: ProcessIdentity,
)
    requires
        0 <= count <= processes.len(),
        target_runs(processes, links, target, count).contains(run),
    ensures
        run.metadata_members.contains(identity) <==> exists|i: int|
            0 <= i < processes.len() && (#[trigger] processes[i]).pid == identity.pid
                && processes[i].start_time == identity.start_time && identity.pid != run.pid
                && every_entry_is_matched(processes[i].argv, target) && run_root(
                links,
                member_pids(processes, target),
                identity.pid,
            ) == Some(run.pid),
    decreases count,
{
    if count > 0 {
        let before = target_runs(processes, links, target, count - 1);
        let after = target_runs(processes, links, target, count);
        let at = choose|at: int| 0 <= at < after.len() && after[at] == run;
        if at < before.len() {
            assert(before[at] == run);
            runs_name_their_members(processes, links, target, count - 1, run, identity);
        } else {
            metadata_members_match_every_entry(
                processes,
                links,
                member_pids(processes, target),
                target,
                run.pid,
                identity,
            );
        }
    }
}

/// The runs of a snapshot are those of its processes, with its own parents.
pub proof fn snapshots_show_their_own_runs(
    snapshot: DiscoverySnapshot,
    target: TargetText,
    identity: ProcessIdentity,
)
    ensures
        run_identities(snapshot_runs(snapshot, target)).contains(identity) <==> exists|i: int|
            0 <= i < snapshot.processes@.len() && begins_run(
                worktree_texts(snapshot.processes@),
                snapshot.sockets.links@,
                target,
                (#[trigger] snapshot.processes@[i])@,
            ) && snapshot.processes@[i].pid == identity.pid && snapshot.processes@[i].start_time
                == identity.start_time,
{
    let shown = worktree_texts(snapshot.processes@);
    let links = snapshot.sockets.links@;
    runs_are_the_outermost_processes(shown, links, target, identity);
    if exists|i: int|
        0 <= i < shown.len() && begins_run(shown, links, target, #[trigger] shown[i])
            && shown[i].pid == identity.pid && shown[i].start_time == identity.start_time {
        let i = choose|i: int|
            0 <= i < shown.len() && begins_run(shown, links, target, #[trigger] shown[i])
                && shown[i].pid == identity.pid && shown[i].start_time == identity.start_time;
        assert(snapshot.processes@[i]@ == shown[i]);
    }
    if exists|i: int|
        0 <= i < snapshot.processes@.len() && begins_run(
            shown,
            links,
            target,
            (#[trigger] snapshot.processes@[i])@,
        ) && snapshot.processes@[i].pid == identity.pid && snapshot.processes@[i].start_time
            == identity.start_time {
        let i = choose|i: int|
            0 <= i < snapshot.processes@.len() && begins_run(
                shown,
                links,
                target,
                (#[trigger] snapshot.processes@[i])@,
            ) && snapshot.processes@[i].pid == identity.pid && snapshot.processes@[i].start_time
                == identity.start_time;
        assert(begins_run(shown, links, target, shown[i]));
    }
}

/// The runs are listed in the order of their processes, each once: looking at more processes adds
/// runs behind those that were found, at most one for each.
pub proof fn runs_are_listed_in_order(
    processes: Seq<WorktreeProcessText>,
    links: Seq<ParentLink>,
    target: TargetText,
    few: int,
    many: int,
)
    requires
        0 <= few <= many <= processes.len(),
    ensures
        ({
            let before = target_runs(processes, links, target, few);
            let after = target_runs(processes, links, target, many);
            before.len() <= after.len() <= before.len() + (many - few) && after.take(
                before.len() as int,
            ) == before
        }),
    decreases many - few,
{
    let before = target_runs(processes, links, target, few);
    let after = target_runs(processes, links, target, many);
    if few < many {
        runs_are_listed_in_order(processes, links, target, few, many - 1);
        let between = target_runs(processes, links, target, many - 1);
        assert(after.take(before.len() as int) =~= between.take(before.len() as int));
    } else {
        assert(after.take(before.len() as int) =~= before);
    }
}

} // verus!
