//! Opening a launch target: showing its run, or starting it.
use vstd::prelude::*;
use vstd::string::*;

use crate::herdr_workspace::{no_texts, push_text};
use crate::launch_target_config::{
    configured_target, found_target, lookup_text, target_texts, targets_are_found_by_id,
    LaunchTarget, PortboardConfig, TargetText,
};
use crate::launch_target_processes::{run_texts, LaunchTargetProcess, RunText};
use crate::manifest_approval::{json_of, json_text};
use crate::numbers::{decimal, push_decimal};
use crate::ordered::{lemma_all_seen, lemma_seen};
use crate::portboard_error::{failure, refusal, ErrorText, PortboardError};
use crate::text::{join, joined, optional_text, texts};

verus! {

/// The target that is meant: the one that is asked for, or the only one there is.
pub open spec fn selected_target(
    targets: Seq<TargetText>,
    requested: Option<Seq<char>>,
) -> Result<TargetText, ErrorText> {
    match requested {
        Some(target_id) => found_target(targets, target_id),
        None => if targets.len() == 1 {
            Ok(targets[0])
        } else if targets.len() == 0 {
            Err(failure("Portboard manifest has no launch targets"@))
        } else {
            Err(
                failure(
                    "Portboard open needs a launch target id when multiple targets are configured"@,
                ),
            )
        },
    }
}

/// Selects the launch target that is meant.
pub fn select_launch_target<'a>(
    config: &'a PortboardConfig,
    requested_target_id: &Option<String>,
) -> (result: Result<&'a LaunchTarget, PortboardError>)
    ensures
        lookup_text(result) == selected_target(
            target_texts(config.launch_targets@),
            optional_text(*requested_target_id),
        ),
{
    match requested_target_id {
        Some(target_id) => configured_target(&config.launch_targets, target_id.as_str()),
        None => {
            proof {
                assert(target_texts(config.launch_targets@).len() == config.launch_targets.len());
            }
            if config.launch_targets.len() == 1 {
                proof {
                    assert(target_texts(config.launch_targets@)[0] == config.launch_targets@[0]@);
                }
                Ok(&config.launch_targets[0])
            } else if config.launch_targets.len() == 0 {
                Err(PortboardError::new("Portboard manifest has no launch targets".to_owned()))
            } else {
                Err(
                    PortboardError::new(
                        "Portboard open needs a launch target id when multiple targets are configured".to_owned(),
                    ),
                )
            }
        },
    }
}

/// What is said once a target was opened.
#[derive(Clone, Copy, Debug, PartialEq, Eq, Structural)]
pub enum OpenReport {
    /// It runs more than once.
    Duplicates,
    /// Its tab is focused.
    Focused,
    /// It runs outside the tabs of the workspace.
    RunsElsewhere,
    /// Someone else is starting it.
    Starting,
    /// It was started in a tab.
    StartedInHerdr,
}

/// How far the opening of a target has come: what is to be done next.
#[derive(Clone, Copy, Debug, PartialEq, Eq, Structural)]
pub enum OpenStep {
    /// Lock the target and look for its runs.
    LockAndScan,
    /// Clear the reservation of a target with so many runs.
    Clear { runs: usize },
    /// Look for the tab of the run, and focus it.
    FocusTab,
    /// Look for a reservation of the target.
    CheckReservation,
    /// Have the command approved.
    Approve,
    /// Start the target in a tab.
    LaunchInHerdr,
    /// Start the target in this terminal.
    LaunchAttached,
    /// Reserve the target for what was started in a tab.
    ReserveTab { pid: u32 },
    /// Reserve the target for what was started in this terminal.
    ReserveAttached { pid: u32 },
    /// Let go of the lock, and wait for what was started in this terminal.
    WaitForChild,
    /// Say what came of it.
    Report(OpenReport),
}

/// What a step of the opening of a target gave.
#[derive(Clone, Copy, Debug, PartialEq, Eq, Structural)]
pub enum OpenEvent {
    Scanned { runs: usize },
    Cleared,
    TabLookedFor { focused: bool },
    Reservation { active: bool },
    Approved,
    Launched { pid: u32 },
    Reserved,
}

/// What is done next, in a workspace or not. An event that does not belong to the step leaves
/// it as it is.
pub open spec fn open_after(in_workspace: bool, step: OpenStep, event: OpenEvent) -> OpenStep {
    match (step, event) {
        (OpenStep::LockAndScan, OpenEvent::Scanned { runs }) => if runs == 0 {
            OpenStep::CheckReservation
        } else {
            OpenStep::Clear { runs }
        },
        (OpenStep::Clear { runs }, OpenEvent::Cleared) => if runs > 1 {
            OpenStep::Report(OpenReport::Duplicates)
        } else if in_workspace {
            OpenStep::FocusTab
        } else {
            OpenStep::Report(OpenReport::RunsElsewhere)
        },
        (OpenStep::FocusTab, OpenEvent::TabLookedFor { focused }) => if focused {
            OpenStep::Report(OpenReport::Focused)
        } else {
            OpenStep::Report(OpenReport::RunsElsewhere)
        },
        (OpenStep::CheckReservation, OpenEvent::Reservation { active }) => if active {
            OpenStep::Report(OpenReport::Starting)
        } else {
            OpenStep::Approve
        },
        (OpenStep::Approve, OpenEvent::Approved) => if in_workspace {
            OpenStep::LaunchInHerdr
        } else {
            OpenStep::LaunchAttached
        },
        (OpenStep::LaunchInHerdr, OpenEvent::Launched { pid }) => OpenStep::ReserveTab { pid },
        (OpenStep::LaunchAttached, OpenEvent::Launched { pid }) => OpenStep::ReserveAttached {
            pid,
        },
        (OpenStep::ReserveTab { .. }, OpenEvent::Reserved) => OpenStep::Report(
            OpenReport::StartedInHerdr,
        ),
        (OpenStep::ReserveAttached { .. }, OpenEvent::Reserved) => OpenStep::WaitForChild,
        _ => step,
    }
}

/// Opens an existing launch target run or starts it in the best available run host: says what
/// is done next.
pub fn open_or_start_launch_target(in_workspace: bool, step: OpenStep, event: OpenEvent) -> (result:
    OpenStep)
    ensures
        result == open_after(in_workspace, step, event),
{
    match (step, event) {
        (OpenStep::LockAndScan, OpenEvent::Scanned { runs }) => {
            if runs == 0 {
                OpenStep::CheckReservation
            } else {
                OpenStep::Clear { runs }
            }
        },
        (OpenStep::Clear { runs }, OpenEvent::Cleared) => {
            if runs > 1 {
                OpenStep::Report(OpenReport::Duplicates)
            } else if in_workspace {
                OpenStep::FocusTab
            } else {
                OpenStep::Report(OpenReport::RunsElsewhere)
            }
        },
        (OpenStep::FocusTab, OpenEvent::TabLookedFor { focused }) => {
            if focused {
                OpenStep::Report(OpenReport::Focused)
            } else {
                OpenStep::Report(OpenReport::RunsElsewhere)
            }
        },
        (OpenStep::CheckReservation, OpenEvent::Reservation { active }) => {
            if active {
                OpenStep::Report(OpenReport::Starting)
            } else {
                OpenStep::Approve
            }
        },
        (OpenStep::Approve, OpenEvent::Approved) => {
            if in_workspace {
                OpenStep::LaunchInHerdr
            } else {
                OpenStep::LaunchAttached
            }
        },
        (OpenStep::LaunchInHerdr, OpenEvent::Launched { pid }) => OpenStep::ReserveTab { pid },
        (OpenStep::LaunchAttached, OpenEvent::Launched { pid }) => OpenStep::ReserveAttached {
            pid,
        },
        (OpenStep::ReserveTab { .. }, OpenEvent::Reserved) => OpenStep::Report(
            OpenReport::StartedInHerdr,
        ),
        (OpenStep::ReserveAttached { .. }, OpenEvent::Reserved) => OpenStep::WaitForChild,
        (step, _) => step,
    }
}

/// Where the opening of a target stands after some events.
pub open spec fn open_run(in_workspace: bool, events: Seq<OpenEvent>) -> OpenStep
    decreases events.len(),
{
    if events.len() == 0 {
        OpenStep::LockAndScan
    } else {
        open_after(in_workspace, open_run(in_workspace, events.drop_last()), events.last())
    }
}

/// Whether the opening of a target has come to where it is started.
pub open spec fn opens_by_starting(step: OpenStep) -> bool {
    step is LaunchInHerdr || step is LaunchAttached || step is ReserveTab
        || step is ReserveAttached || step is WaitForChild || step == OpenStep::Report(
        OpenReport::StartedInHerdr,
    )
}

/// A target is started only where no run was found, nobody else was starting it, and its
/// command was approved.
pub proof fn starts_are_approved(in_workspace: bool, events: Seq<OpenEvent>)
    ensures
        opens_by_starting(open_run(in_workspace, events)) ==> events.contains(
            OpenEvent::Scanned { runs: 0 },
        ) && events.contains(OpenEvent::Reservation { active: false }) && events.contains(
            OpenEvent::Approved,
        ),
        open_run(in_workspace, events) is Approve ==> events.contains(
            OpenEvent::Scanned { runs: 0 },
        ) && events.contains(OpenEvent::Reservation { active: false }),
        open_run(in_workspace, events) is CheckReservation ==> events.contains(
            OpenEvent::Scanned { runs: 0 },
        ),
    decreases events.len(),
{
    if events.len() > 0 {
        starts_are_approved(in_workspace, events.drop_last());
        lemma_seen(events, OpenEvent::Scanned { runs: 0 });
        lemma_seen(events, OpenEvent::Reservation { active: false });
        lemma_seen(events, OpenEvent::Approved);
    }
}

/// A target that runs more than once is neither focused nor started: it is reported.
pub proof fn duplicates_are_refused(in_workspace: bool, runs: usize)
    requires
        runs > 1,
    ensures
        open_after(
            in_workspace,
            open_after(in_workspace, OpenStep::LockAndScan, OpenEvent::Scanned { runs }),
            OpenEvent::Cleared,
        ) == OpenStep::Report(OpenReport::Duplicates),
{
}

/// The line for a run whose command has a JSON form.
pub open spec fn run_line(pid: u32, argv_json: Seq<char>) -> Seq<char> {
    "  pid "@ + decimal(pid as nat) + ": "@ + argv_json
}

/// Writes the line for a run whose command has a JSON form.
pub fn write_run_line(pid: u32, argv_json: &str) -> (result: String)
    ensures
        result@ == run_line(pid, argv_json@),
{
    let mut line = "  pid ".to_owned();
    push_decimal(&mut line, pid as u64);
    line.append(": ");
    line.append(argv_json);
    line
}

/// The lines for the first `count` runs.
pub open spec fn run_lines(runs: Seq<RunText>, count: int) -> Seq<Seq<char>>
    decreases count,
{
    if count <= 0 {
        Seq::empty()
    } else {
        run_lines(runs, count - 1).push(
            run_line(runs[count - 1].pid, json_of(runs[count - 1].argv)),
        )
    }
}

fn push_run_lines(lines: &mut Vec<String>, runs: &Vec<LaunchTargetProcess>) -> (result: Result<
    (),
    PortboardError,
>)
    ensures
        result is Ok,
        texts(final(lines)@) == texts(old(lines)@) + run_lines(
            run_texts(runs@),
            runs@.len() as int,
        ),
{
    let ghost shown = run_texts(runs@);
    let ghost before = texts(lines@);
    let mut index: usize = 0;
    proof {
        assert(before + Seq::<Seq<char>>::empty() =~= before);
    }
    while index < runs.len()
        invariant
            index <= runs.len(),
            shown == run_texts(runs@),
            texts(lines@) == before + run_lines(shown, index as int),
        decreases runs.len() - index,
    {
        proof {
            assert(shown[index as int] == runs@[index as int]@);
        }
        match json_text(&runs[index].argv) {
            Ok(json) => {
                let line = write_run_line(runs[index].pid, json.as_str());
                let ghost added = run_lines(shown, index as int);
                push_text(lines, line.as_str());
                proof {
                    assert(texts(lines@) =~= before + added.push(line@));
                }
            },
            Err(cause) => {
                return Err(PortboardError::new(cause));
            },
        }
        index += 1;
    }
    Ok(())
}

/// What is said once a target was opened, before its runs are listed.
pub open spec fn report_heading(
    report: OpenReport,
    label: Seq<char>,
    cwd: Seq<char>,
    runs: nat,
) -> Seq<Seq<char>> {
    match report {
        OpenReport::Duplicates => seq![
            label + " has "@ + decimal(runs)
                + " duplicate instances running; refusing to focus or start another"@,
        ],
        OpenReport::Focused => seq!["Focused "@ + label],
        OpenReport::RunsElsewhere => seq![
            label + " is already running outside a Portboard-owned Herdr pane"@,
            "  cwd: "@ + cwd,
        ],
        OpenReport::Starting => seq![label + " is starting"@],
        OpenReport::StartedInHerdr => seq!["Started "@ + label + " in Herdr"@],
    }
}

/// Whether the runs are listed behind what is said.
pub open spec fn lists_runs(report: OpenReport) -> bool {
    report == OpenReport::Duplicates || report == OpenReport::RunsElsewhere
}

/// What is said once a target was opened.
pub open spec fn report_lines(
    report: OpenReport,
    label: Seq<char>,
    cwd: Seq<char>,
    runs: Seq<RunText>,
) -> Seq<Seq<char>> {
    let heading = report_heading(report, label, cwd, runs.len());
    if lists_runs(report) {
        heading + run_lines(runs, runs.len() as int)
    } else {
        heading
    }
}

/// Writes what is said once a target was opened, before its runs are listed.
pub fn write_report_heading(report: OpenReport, label: &str, cwd: &str, runs: usize) -> (result: Vec<
    String,
>)
    ensures
        texts(result@) == report_heading(report, label@, cwd@, runs as nat),
{
    let mut lines = no_texts();
    match report {
        OpenReport::Duplicates => {
            let mut line = label.to_owned();
            line.append(" has ");
            push_decimal(&mut line, runs as u64);
            line.append(" duplicate instances running; refusing to focus or start another");
            push_text(&mut lines, line.as_str());
        },
        OpenReport::Focused => {
            let mut line = "Focused ".to_owned();
            line.append(label);
            push_text(&mut lines, line.as_str());
        },
        OpenReport::RunsElsewhere => {
            let mut line = label.to_owned();
            line.append(" is already running outside a Portboard-owned Herdr pane");
            push_text(&mut lines, line.as_str());
            let mut place = "  cwd: ".to_owned();
            place.append(cwd);
            push_text(&mut lines, place.as_str());
        },
        OpenReport::Starting => {
            let mut line = label.to_owned();
            line.append(" is starting");
            push_text(&mut lines, line.as_str());
        },
        OpenReport::StartedInHerdr => {
            let mut line = "Started ".to_owned();
            line.append(label);
            line.append(" in Herdr");
            push_text(&mut lines, line.as_str());
        },
    }
    proof {
        assert(texts(lines@) =~= report_heading(report, label@, cwd@, runs as nat));
    }
    lines
}

/// Writes what is said once a target was opened.
pub fn write_report(
    report: OpenReport,
    label: &str,
    cwd: &str,
    runs: &Vec<LaunchTargetProcess>,
) -> (result: Result<Vec<String>, PortboardError>)
    ensures
        result matches Ok(lines) && texts(lines@) == report_lines(
            report,
            label@,
            cwd@,
            run_texts(runs@),
        ),
{
    proof {
        assert(run_texts(runs@).len() == runs.len());
    }
    let mut lines = write_report_heading(report, label, cwd, runs.len());
    match report {
        OpenReport::Duplicates | OpenReport::RunsElsewhere => {
            match push_run_lines(&mut lines, runs) {
                Ok(_) => Ok(lines),
                Err(error) => Err(error),
            }
        },
        _ => Ok(lines),
    }
}

/// A failure of a command that was started in this terminal.
pub open spec fn attached_failure(
    before: Seq<char>,
    argv: Seq<Seq<char>>,
    behind: Seq<char>,
) -> Seq<char> {
    "Portboard attached launch "@ + before + "`"@ + joined(argv, " "@) + "`"@ + behind
}

fn attached_message(before: &str, argv: &Vec<String>, behind: &str) -> (result: String)
    ensures
        result@ == attached_failure(before@, texts(argv@), behind@),
{
    let line = join(argv, " ");
    let mut message = "Portboard attached launch ".to_owned();
    message.append(before);
    message.append("`");
    message.append(line.as_str());
    message.append("`");
    message.append(behind);
    message
}

/// Why a command could not be started in this terminal.
pub fn start_launch_target_attached_failure(target: &LaunchTarget, cause: String) -> (result:
    PortboardError)
    ensures
        result@ == (ErrorText {
            message: attached_failure("could not start "@, target@.argv, ""@),
            cause: Some(cause@),
        }),
{
    PortboardError::with_cause(attached_message("could not start ", &target.argv, ""), cause)
}

/// Why a command could not be waited for in this terminal.
pub fn wait_for_attached_launch_failure(target: &LaunchTarget, cause: String) -> (result:
    PortboardError)
    ensures
        result@ == (ErrorText {
            message: attached_failure("could not wait for "@, target@.argv, ""@),
            cause: Some(cause@),
        }),
{
    PortboardError::with_cause(attached_message("could not wait for ", &target.argv, ""), cause)
}

/// Requires that a command which ran in this terminal succeeded, given its status in words.
pub fn wait_for_attached_launch(target: &LaunchTarget, succeeded: bool, status: &str) -> (result:
    Result<(), PortboardError>)
    ensures
        refusal(result) == (if succeeded {
            None
        } else {
            Some(failure(attached_failure(""@, target@.argv, " exited with "@ + status@)))
        }),
{
    if succeeded {
        return Ok(());
    }
    let mut behind = " exited with ".to_owned();
    behind.append(status);
    Err(PortboardError::new(attached_message("", &target.argv, behind.as_str())))
}

/// Each report has its reason among the events: a target is focused only in a workspace and
/// only where its tab was found, a single run is said to be elsewhere only where no tab was
/// focused, several runs are reported as duplicates, and a target is said to be starting only
/// where somebody holds its reservation. A tab is used in a workspace only, this terminal only
/// outside of one, and what is reserved is what was launched.
pub proof fn openings_report_what_was_seen(in_workspace: bool, events: Seq<OpenEvent>)
    ensures
        match open_run(in_workspace, events) {
            OpenStep::LockAndScan => true,
            OpenStep::Clear { runs } => runs > 0 && events.contains(OpenEvent::Scanned { runs }),
            OpenStep::FocusTab => in_workspace && events.contains(OpenEvent::Scanned { runs: 1 })
                && events.contains(OpenEvent::Cleared),
            OpenStep::CheckReservation => events.contains(OpenEvent::Scanned { runs: 0 }),
            OpenStep::Approve => events.contains(OpenEvent::Reservation { active: false }),
            OpenStep::LaunchInHerdr => in_workspace && events.contains(OpenEvent::Approved),
            OpenStep::LaunchAttached => !in_workspace && events.contains(OpenEvent::Approved),
            OpenStep::ReserveTab { pid } => in_workspace && events.contains(
                OpenEvent::Launched { pid },
            ),
            OpenStep::ReserveAttached { pid } => !in_workspace && events.contains(
                OpenEvent::Launched { pid },
            ),
            OpenStep::WaitForChild => !in_workspace && events.contains(OpenEvent::Reserved),
            OpenStep::Report(OpenReport::Duplicates) => events.contains(OpenEvent::Cleared)
                && exists|runs: usize|
                runs > 1 && #[trigger] events.contains(OpenEvent::Scanned { runs }),
            OpenStep::Report(OpenReport::Focused) => in_workspace && events.contains(
                OpenEvent::Scanned { runs: 1 },
            ) && events.contains(OpenEvent::TabLookedFor { focused: true }),
            OpenStep::Report(OpenReport::RunsElsewhere) => events.contains(
                OpenEvent::Scanned { runs: 1 },
            ) && events.contains(OpenEvent::Cleared) && (in_workspace ==> events.contains(
                OpenEvent::TabLookedFor { focused: false },
            )),
            OpenStep::Report(OpenReport::Starting) => events.contains(
                OpenEvent::Scanned { runs: 0 },
            ) && events.contains(OpenEvent::Reservation { active: true }),
            OpenStep::Report(OpenReport::StartedInHerdr) => in_workspace && events.contains(
                OpenEvent::Reserved,
            ) && exists|pid: u32| #[trigger] events.contains(OpenEvent::Launched { pid }),
        },
    decreases events.len(),
{
    if events.len() > 0 {
        openings_report_what_was_seen(in_workspace, events.drop_last());
        lemma_all_seen(events);
    }
}

/// A target that runs is never started: several runs are refused, and a single one is focused
/// where its tab was found in a workspace, and otherwise said to run elsewhere.
pub proof fn running_targets_are_shown(in_workspace: bool, runs: usize, focused: bool)
    requires
        runs > 0,
    ensures
        ({
            let cleared = open_after(
                in_workspace,
                open_after(in_workspace, OpenStep::LockAndScan, OpenEvent::Scanned { runs }),
                OpenEvent::Cleared,
            );
            let shown = open_after(in_workspace, cleared, OpenEvent::TabLookedFor { focused });
            &&& runs > 1 ==> cleared == OpenStep::Report(OpenReport::Duplicates)
            &&& runs == 1 && !in_workspace ==> cleared == OpenStep::Report(
                OpenReport::RunsElsewhere,
            )
            &&& runs == 1 && in_workspace && focused ==> shown == OpenStep::Report(
                OpenReport::Focused,
            )
            &&& runs == 1 && in_workspace && !focused ==> shown == OpenStep::Report(
                OpenReport::RunsElsewhere,
            )
        }),
{
}

/// A target without a run that nobody else is starting is approved, launched and reserved for
/// what was launched: in a tab of the workspace, or in this terminal where there is none, which
/// is then waited for. Where somebody else is starting it, that is all that is said.
pub proof fn idle_targets_are_started(in_workspace: bool, active: bool, pid: u32)
    ensures
        ({
            let checked = open_after(
                in_workspace,
                open_after(in_workspace, OpenStep::LockAndScan, OpenEvent::Scanned { runs: 0 }),
                OpenEvent::Reservation { active },
            );
            let launched = open_after(
                in_workspace,
                open_after(in_workspace, checked, OpenEvent::Approved),
                OpenEvent::Launched { pid },
            );
            let reserved = open_after(in_workspace, launched, OpenEvent::Reserved);
            &&& active ==> checked == OpenStep::Report(OpenReport::Starting)
            &&& !active && in_workspace ==> launched == (OpenStep::ReserveTab { pid }) && reserved
                == OpenStep::Report(OpenReport::StartedInHerdr)
            &&& !active && !in_workspace ==> launched == (OpenStep::ReserveAttached { pid })
                && reserved == OpenStep::WaitForChild
        }),
{
}

/// Whether an event is what a step of the opening of a target asks for.
pub open spec fn answers_opening(step: OpenStep, event: OpenEvent) -> bool {
    match step {
        OpenStep::LockAndScan => event is Scanned,
        OpenStep::Clear { .. } => event is Cleared,
        OpenStep::FocusTab => event is TabLookedFor,
        OpenStep::CheckReservation => event is Reservation,
        OpenStep::Approve => event is Approved,
        OpenStep::LaunchInHerdr | OpenStep::LaunchAttached => event is Launched,
        OpenStep::ReserveTab { .. } | OpenStep::ReserveAttached { .. } => event is Reserved,
        OpenStep::WaitForChild | OpenStep::Report(_) => false,
    }
}

/// An opening moves on exactly where the event is the one that its step asks for: what comes out
/// of turn changes nothing, and a report is the end.
pub proof fn openings_move_in_turn(in_workspace: bool, step: OpenStep, event: OpenEvent)
    ensures
        open_after(in_workspace, step, event) != step <==> answers_opening(step, event),
{
}

/// The target that is opened is the one with the id that was asked for, or the only one where
/// none was; with none or several to choose from, nothing is chosen.
pub proof fn targets_are_chosen_by_id_or_alone(
    targets: Seq<TargetText>,
    requested: Option<Seq<char>>,
    target: TargetText,
)
    ensures
        requested is None ==> (selected_target(targets, requested) == Ok::<_, ErrorText>(target)
            <==> targets == seq![target]),
        requested is Some ==> match selected_target(targets, requested) {
            Ok(chosen) => chosen.id == requested->0 && targets.contains(chosen),
            Err(_) => forall|i: int|
                0 <= i < targets.len() ==> (#[trigger] targets[i]).id != requested->0,
        },
{
    if let Some(id) = requested {
        targets_are_found_by_id(targets, id);
    } else if targets.len() == 1 {
        assert(targets =~= seq![targets[0]]);
    }
}

/// The runs are listed exactly where there are several or a run is elsewhere: one line each, in
/// order, with its pid and its command, behind what is said of the target. Every other report is
/// a single line.
pub proof fn reports_list_their_runs(
    report: OpenReport,
    label: Seq<char>,
    cwd: Seq<char>,
    runs: Seq<RunText>,
    index: int,
)
    requires
        0 <= index < runs.len(),
    ensures
        ({
            let lines = report_lines(report, label, cwd, runs);
            let line = "  pid "@ + decimal(runs[index].pid as nat) + ": "@ + json_of(
                runs[index].argv,
            );
            &&& report == OpenReport::Duplicates ==> lines.len() == 1 + runs.len() && lines[1
                + index] == line
            &&& report == OpenReport::RunsElsewhere ==> lines.len() == 2 + runs.len() && lines[1]
                == "  cwd: "@ + cwd && lines[2 + index] == line
            &&& report == OpenReport::Focused || report == OpenReport::Starting || report
                == OpenReport::StartedInHerdr ==> lines.len() == 1
        }),
{
    lemma_run_lines(runs, runs.len() as int, index);
}

proof fn lemma_run_lines(runs: Seq<RunText>, count: int, index: int)
    requires
        0 <= count <= runs.len(),
    ensures
        run_lines(runs, count).len() == count,
        0 <= index < count ==> run_lines(runs, count)[index] == "  pid "@ + decimal(
            runs[index].pid as nat,
        ) + ": "@ + json_of(runs[index].argv),
    decreases count,
{
    if count > 0 {
        lemma_run_lines(runs, count - 1, index);
    }
}

} // verus!
