//! Stopping the runs of a launch target.
use vstd::prelude::*;
use vstd::string::*;

use crate::launch_target_processes::{
    carries_target_identity, optional_bytes, process_has_portboard_target_identity, run_identities,
    run_identity, run_texts, LaunchTargetProcess, RunText,
};
use crate::ordered::{lemma_all_seen, lemma_seen};
use crate::portboard_error::{failure, ErrorText, PortboardError};
use crate::process_identity::{environment_holds, ProcessIdentity};

verus! {

/// How many nanoseconds a process has to end after a signal.
pub const KILL_GRACE: u64 = 5000000000;

/// How many nanoseconds pass between two looks at the processes that are to end.
pub const KILL_POLL_INTERVAL: u64 = 25000000;

/// What the system says where there is no such process.
pub const NO_SUCH_PROCESS: i32 = 3;

/// What the system says where it does not know a call.
pub const NO_SUCH_CALL: i32 = 38;

/// What the system says where it does not take an argument.
pub const INVALID_ARGUMENT: i32 = 22;

/// A process that was reserved and shows no signature yet.
pub open spec fn reserved_run(identity: ProcessIdentity) -> RunText {
    RunText {
        metadata_members: Seq::empty(),
        pid: identity.pid,
        start_time: identity.start_time,
        argv: Seq::empty(),
    }
}

/// What is stopped: the runs of the target, and the launcher that holds its reservation where
/// that is none of them.
pub open spec fn stopped_runs(
    runs: Seq<RunText>,
    reservation: Option<ProcessIdentity>,
) -> Seq<RunText> {
    match reservation {
        Some(identity) => if run_identities(runs).contains(identity) {
            runs
        } else {
            runs.push(reserved_run(identity))
        },
        None => runs,
    }
}

fn holds_run(runs: &Vec<LaunchTargetProcess>, identity: ProcessIdentity) -> (result: bool)
    ensures
        result == run_identities(run_texts(runs@)).contains(identity),
{
    let ghost shown = run_identities(run_texts(runs@));
    let mut index: usize = 0;
    while index < runs.len()
        invariant
            index <= runs.len(),
            shown == run_identities(run_texts(runs@)),
            forall|i: int| 0 <= i < index ==> #[trigger] shown[i] != identity,
        decreases runs.len() - index,
    {
        if runs[index].identity() == identity {
            proof {
                assert(shown[index as int] == identity);
            }
            return true;
        }
        index += 1;
    }
    false
}

/// Takes the launcher that holds the reservation to the runs of a target.
pub fn runs_to_stop(
    runs: Vec<LaunchTargetProcess>,
    reservation: Option<ProcessIdentity>,
) -> (result: Vec<LaunchTargetProcess>)
    ensures
        run_texts(result@) == stopped_runs(run_texts(runs@), reservation),
{
    let identity = match reservation {
        Some(identity) => identity,
        None => {
            return runs;
        },
    };
    let ghost shown = run_texts(runs@);
    if holds_run(&runs, identity) {
        return runs;
    }
    let mut result = runs;
    let run = LaunchTargetProcess {
        metadata_members: Vec::new(),
        pid: identity.pid,
        start_time: identity.start_time,
        argv: Vec::new(),
    };
    let ghost added = run@;
    result.push(run);
    proof {
        assert(added.metadata_members =~= Seq::<ProcessIdentity>::empty());
        assert(added.argv =~= Seq::<Seq<char>>::empty());
        assert(run_texts(result@) =~= shown.push(added));
    }
    result
}

/// Whether Portboard started a run: it holds the reservation, or its environment carries the
/// identity of the target.
pub open spec fn is_owned(
    run: RunText,
    reservation: Option<ProcessIdentity>,
    environment: Option<Seq<u8>>,
    target_id: Seq<char>,
) -> bool {
    reservation == Some(run_identity(run)) || carries_target_identity(environment, target_id)
}

/// The runs among the first `count` that Portboard started.
pub open spec fn owned_among(
    runs: Seq<RunText>,
    environments: Seq<Option<Vec<u8>>>,
    reservation: Option<ProcessIdentity>,
    target_id: Seq<char>,
    count: int,
) -> Seq<RunText>
    decreases count,
{
    if count <= 0 {
        Seq::empty()
    } else {
        let before = owned_among(runs, environments, reservation, target_id, count - 1);
        if is_owned(
            runs[count - 1],
            reservation,
            optional_bytes(environments[count - 1]),
            target_id,
        ) {
            before.push(runs[count - 1])
        } else {
            before
        }
    }
}

/// Picks the runs that Portboard started, from the environment of each where it could be read.
pub fn owned_runs(
    runs: &Vec<LaunchTargetProcess>,
    environments: &Vec<Option<Vec<u8>>>,
    reservation: Option<ProcessIdentity>,
    target_id: &str,
) -> (result: Vec<LaunchTargetProcess>)
    requires
        environments@.len() == runs@.len(),
    ensures
        run_texts(result@) == owned_among(
            run_texts(runs@),
            environments@,
            reservation,
            target_id@,
            runs@.len() as int,
        ),
{
    let ghost shown = run_texts(runs@);
    let mut result: Vec<LaunchTargetProcess> = Vec::new();
    let mut index: usize = 0;
    proof {
        assert(run_texts(result@) =~= Seq::<RunText>::empty());
    }
    while index < runs.len()
        invariant
            index <= runs.len() == environments.len(),
            shown == run_texts(runs@),
            run_texts(result@) == owned_among(
                shown,
                environments@,
                reservation,
                target_id@,
                index as int,
            ),
        decreases runs.len() - index,
    {
        let run = &runs[index];
        proof {
            assert(shown[index as int] == run@);
        }
        let reserved = match reservation {
            Some(identity) => run.identity() == identity,
            None => false,
        };
        if reserved || process_has_portboard_target_identity(&environments[index], target_id) {
            let ghost before = run_texts(result@);
            result.push(run.clone());
            proof {
                assert(run_texts(result@) =~= before.push(run@));
            }
        }
        index += 1;
    }
    result
}

/// The identities from which the processes to stop are captured: the outermost ones of the
/// runs, and the members of the group that was started.
pub fn stop_roots(
    runs: &Vec<LaunchTargetProcess>,
    members: &Vec<ProcessIdentity>,
) -> (result: Vec<ProcessIdentity>)
    ensures
        result@ == run_identities(run_texts(runs@)) + members@,
{
    let ghost shown = run_identities(run_texts(runs@));
    let mut result: Vec<ProcessIdentity> = Vec::new();
    let mut index: usize = 0;
    while index < runs.len()
        invariant
            index <= runs.len(),
            shown == run_identities(run_texts(runs@)),
            result@ == shown.take(index as int),
        decreases runs.len() - index,
    {
        result.push(runs[index].identity());
        index += 1;
        proof {
            assert(shown.take(index as int) =~= shown.take(index - 1).push(shown[index - 1]));
        }
    }
    proof {
        assert(shown.take(shown.len() as int) =~= shown);
    }
    let mut at: usize = 0;
    proof {
        assert(shown + members@.take(0) =~= shown);
    }
    while at < members.len()
        invariant
            at <= members.len(),
            result@ == shown + members@.take(at as int),
        decreases members.len() - at,
    {
        result.push(members[at]);
        at += 1;
        proof {
            assert(result@ =~= shown + members@.take(at as int));
        }
    }
    proof {
        assert(members@.take(members@.len() as int) =~= members@);
    }
    result
}

/// How far the stop of a target has come: what is to be done next. The launch lock is held
/// through confirmed shutdown and optional safe tab cleanup, so open and ensure cannot race a
/// partially stopped run.
#[derive(Clone, Copy, Debug, PartialEq, Eq, Structural)]
pub enum StopStep {
    /// Lock the target, look for its runs and its reservation.
    LockAndScan,
    /// Look for the tab of the runs that Portboard started.
    FindTab,
    /// Capture the process trees of what is to be stopped.
    CaptureTrees { has_tab: bool },
    /// Signal the captured processes until they are gone.
    Signal { has_tab: bool },
    /// Look for members of the group that was started.
    CheckGroup { has_tab: bool },
    /// Look for runs of the target.
    CheckRuns { has_tab: bool },
    /// Clear the reservation.
    ClearReservation { has_tab: bool },
    /// Close the tab, if nothing runs in it.
    CloseTab,
    /// The target is stopped.
    Stopped,
    /// The group that was started still has members.
    GroupSurvived,
    /// The target still has runs.
    RunsSurvived,
}

/// What a step of the stop of a target gave.
#[derive(Clone, Copy, Debug, PartialEq, Eq, Structural)]
pub enum StopEvent {
    /// What is to be stopped was found; whether Portboard started some of it.
    Scanned { some_owned: bool },
    TabLookedFor { found: bool },
    Captured,
    /// All captured processes are gone.
    Signaled,
    GroupChecked { has_members: bool },
    RunsChecked { has_runs: bool },
    Cleared,
    TabHandled,
}

/// What is done next, in a workspace or not, with a group that was started or not. An event
/// that does not belong to the step leaves it as it is.
pub open spec fn stop_after(
    in_workspace: bool,
    has_group: bool,
    step: StopStep,
    event: StopEvent,
) -> StopStep {
    match (step, event) {
        (StopStep::LockAndScan, StopEvent::Scanned { some_owned }) => if in_workspace
            && some_owned {
            StopStep::FindTab
        } else {
            StopStep::CaptureTrees { has_tab: false }
        },
        (StopStep::FindTab, StopEvent::TabLookedFor { found }) => StopStep::CaptureTrees {
            has_tab: found,
        },
        (StopStep::CaptureTrees { has_tab }, StopEvent::Captured) => StopStep::Signal { has_tab },
        (StopStep::Signal { has_tab }, StopEvent::Signaled) => if has_group {
            StopStep::CheckGroup { has_tab }
        } else {
            StopStep::CheckRuns { has_tab }
        },
        (StopStep::CheckGroup { has_tab }, StopEvent::GroupChecked { has_members }) => {
            if has_members {
                StopStep::GroupSurvived
            } else {
                StopStep::CheckRuns { has_tab }
            }
        },
        (StopStep::CheckRuns { has_tab }, StopEvent::RunsChecked { has_runs }) => if has_runs {
            StopStep::RunsSurvived
        } else {
            StopStep::ClearReservation { has_tab }
        },
        (StopStep::ClearReservation { has_tab }, StopEvent::Cleared) => if has_tab {
            StopStep::CloseTab
        } else {
            StopStep::Stopped
        },
        (StopStep::CloseTab, StopEvent::TabHandled) => StopStep::Stopped,
        _ => step,
    }
}

fn next_stop_step(in_workspace: bool, has_group: bool, step: StopStep, event: StopEvent) -> (result:
    StopStep)
    ensures
        result == stop_after(in_workspace, has_group, step, event),
{
    match (step, event) {
        (StopStep::LockAndScan, StopEvent::Scanned { some_owned }) => {
            if in_workspace && some_owned {
                StopStep::FindTab
            } else {
                StopStep::CaptureTrees { has_tab: false }
            }
        },
        (StopStep::FindTab, StopEvent::TabLookedFor { found }) => StopStep::CaptureTrees {
            has_tab: found,
        },
        (StopStep::CaptureTrees { has_tab }, StopEvent::Captured) => StopStep::Signal { has_tab },
        (StopStep::Signal { has_tab }, StopEvent::Signaled) => {
            if has_group {
                StopStep::CheckGroup { has_tab }
            } else {
                StopStep::CheckRuns { has_tab }
            }
        },
        (StopStep::CheckGroup { has_tab }, StopEvent::GroupChecked { has_members }) => {
            if has_members {
                StopStep::GroupSurvived
            } else {
                StopStep::CheckRuns { has_tab }
            }
        },
        (StopStep::CheckRuns { has_tab }, StopEvent::RunsChecked { has_runs }) => {
            if has_runs {
                StopStep::RunsSurvived
            } else {
                StopStep::ClearReservation { has_tab }
            }
        },
        (StopStep::ClearReservation { has_tab }, StopEvent::Cleared) => {
            if has_tab {
                StopStep::CloseTab
            } else {
                StopStep::Stopped
            }
        },
        (StopStep::CloseTab, StopEvent::TabHandled) => StopStep::Stopped,
        (step, _) => step,
    }
}

/// Stops a target in a workspace, where its tab is closed as well: says what is done next.
pub fn stop_launch_target_and_close_herdr_tab(step: StopStep, event: StopEvent) -> (result:
    StopStep)
    ensures
        result == stop_after(true, false, step, event),
{
    next_stop_step(true, false, step, event)
}

/// Stops a target: says what is done next.
pub fn stop_launch_target(step: StopStep, event: StopEvent) -> (result: StopStep)
    ensures
        result == stop_after(false, false, step, event),
{
    next_stop_step(false, false, step, event)
}

/// Stops a target together with the group that was started for it: says what is done next.
pub fn stop_launch_target_with_owned_group(step: StopStep, event: StopEvent) -> (result: StopStep)
    ensures
        result == stop_after(false, true, step, event),
{
    next_stop_step(false, true, step, event)
}

/// Why a stop failed, where it did.
pub open spec fn stop_failure(step: StopStep) -> Option<ErrorText> {
    match step {
        StopStep::GroupSurvived => Some(
            failure("Portboard owned process group still has live members after stop"@),
        ),
        StopStep::RunsSurvived => Some(
            failure("Portboard launch target still has live processes after stop"@),
        ),
        _ => None,
    }
}

/// Says why a stop failed, where it did.
pub fn describe_stop(step: StopStep) -> (result: Option<PortboardError>)
    ensures
        crate::launch_target_readiness::optional_error(result) == stop_failure(step),
{
    match step {
        StopStep::GroupSurvived => Some(
            PortboardError::new(
                "Portboard owned process group still has live members after stop".to_owned(),
            ),
        ),
        StopStep::RunsSurvived => Some(
            PortboardError::new(
                "Portboard launch target still has live processes after stop".to_owned(),
            ),
        ),
        _ => None,
    }
}

/// Where the stop of a target stands after some events.
pub open spec fn stop_run(in_workspace: bool, has_group: bool, events: Seq<StopEvent>) -> StopStep
    decreases events.len(),
{
    if events.len() == 0 {
        StopStep::LockAndScan
    } else {
        stop_after(
            in_workspace,
            has_group,
            stop_run(in_workspace, has_group, events.drop_last()),
            events.last(),
        )
    }
}

/// Whether the stop has come to where the reservation may be cleared.
pub open spec fn is_confirmed(step: StopStep) -> bool {
    step is ClearReservation || step is CloseTab || step is Stopped
}

/// A reservation is cleared, a tab closed and a stop reported only behind confirmed shutdown:
/// the captured processes are gone, no run is left, and no member of a group that was started.
pub proof fn stops_are_confirmed(in_workspace: bool, has_group: bool, events: Seq<StopEvent>)
    ensures
        is_confirmed(stop_run(in_workspace, has_group, events)) ==> events.contains(
            StopEvent::Signaled,
        ) && events.contains(StopEvent::RunsChecked { has_runs: false }) && (has_group
            ==> events.contains(StopEvent::GroupChecked { has_members: false })),
        stop_run(in_workspace, has_group, events) is CheckRuns ==> events.contains(
            StopEvent::Signaled,
        ) && (has_group ==> events.contains(StopEvent::GroupChecked { has_members: false })),
        stop_run(in_workspace, has_group, events) is CheckGroup ==> events.contains(
            StopEvent::Signaled,
        ),
    decreases events.len(),
{
    if events.len() > 0 {
        stops_are_confirmed(in_workspace, has_group, events.drop_last());
        lemma_seen(events, StopEvent::Signaled);
        lemma_seen(events, StopEvent::RunsChecked { has_runs: false });
        lemma_seen(events, StopEvent::GroupChecked { has_members: false });
    }
}

/// A signal is sent to a process only while it is the one that was captured: `read` tells who
/// has the pid now, and `send` sends. `send` may be called only where `read` gave that very
/// process, so a process that took the pid over is never signaled. A process that is gone by
/// then needs no signal.
pub fn signal_if_current<Read, Send>(
    identity: ProcessIdentity,
    signal: i32,
    read: Read,
    send: Send,
) -> (result: Result<(), i32>) where
    Read: FnOnce(u32) -> Option<ProcessIdentity>,
    Send: FnOnce(u32, i32) -> Result<(), i32>,

    requires
        read.requires((identity.pid,)),
        forall|seen: Option<ProcessIdentity>| #[trigger]
            read.ensures((identity.pid,), seen) && seen == Some(identity) ==> send.requires(
                (identity.pid, signal),
            ),
    ensures
        exists|seen: Option<ProcessIdentity>| #[trigger]
            read.ensures((identity.pid,), seen) && if seen != Some(identity) {
                result == Ok::<(), i32>(())
            } else {
                exists|sent: Result<(), i32>| #[trigger]
                    send.ensures((identity.pid, signal), sent) && result == (if sent == Err::<
                        (),
                        i32,
                    >(NO_SUCH_PROCESS) {
                        Ok(())
                    } else {
                        sent
                    })
            },
{
    let seen = read(identity.pid);
    let current = match seen {
        Some(found) => found == identity,
        None => false,
    };
    if !current {
        return Ok(());
    }
    let sent = send(identity.pid, signal);
    proof {
        assert(read.ensures((identity.pid,), seen));
        assert(send.ensures((identity.pid, signal), sent));
    }
    let gone = match sent {
        Ok(_) => false,
        Err(code) => code == NO_SUCH_PROCESS,
    };
    if gone {
        Ok(())
    } else {
        sent
    }
}

/// What came of asking the system for a handle of a process.
#[derive(Clone, Copy, Debug, PartialEq, Eq, Structural)]
pub enum HandleOutcome {
    /// It gave one.
    Opened,
    /// It has none to give.
    Unsupported,
    /// It refused.
    Failed,
}

/// What a refusal of the system to give a handle means.
pub fn handle_refused(code: i32) -> (result: HandleOutcome)
    ensures
        result == (if code == NO_SUCH_CALL || code == INVALID_ARGUMENT {
            HandleOutcome::Unsupported
        } else {
            HandleOutcome::Failed
        }),
{
    if code == NO_SUCH_CALL || code == INVALID_ARGUMENT {
        HandleOutcome::Unsupported
    } else {
        HandleOutcome::Failed
    }
}

/// What is done about one captured process.
#[derive(Clone, Copy, Debug, PartialEq, Eq, Structural)]
pub enum TerminatePlan {
    /// It is gone.
    Skip,
    /// It is asked to end.
    Signal,
    /// Nothing can be done about it.
    Fail,
}

/// Decides what is done about a captured process, from what came of asking for a handle and
/// whether it is still live then.
pub fn plan_termination(handle: HandleOutcome, still_live: bool) -> (result: TerminatePlan)
    ensures
        result == (match handle {
            HandleOutcome::Failed => if still_live {
                TerminatePlan::Fail
            } else {
                TerminatePlan::Skip
            },
            _ => TerminatePlan::Signal,
        }),
{
    match handle {
        HandleOutcome::Failed => {
            if still_live {
                TerminatePlan::Fail
            } else {
                TerminatePlan::Skip
            }
        },
        _ => TerminatePlan::Signal,
    }
}

/// The pid as the system takes it, where it does.
pub fn signal_pid(identity: ProcessIdentity) -> (result: Result<i32, PortboardError>)
    ensures
        match result {
            Ok(pid) => pid == identity.pid,
            Err(error) => identity.pid > i32::MAX && error@ == (ErrorText {
                message: "invalid process pid"@,
                cause: Some("out of range integral type conversion attempted"@),
            }),
        },
{
    if identity.pid <= i32::MAX as u32 {
        Ok(identity.pid as i32)
    } else {
        Err(
            PortboardError::with_cause(
                "invalid process pid".to_owned(),
                "out of range integral type conversion attempted".to_owned(),
            ),
        )
    }
}

/// How far a shutdown has come: what is to be done next.
#[derive(Clone, Copy, Debug, PartialEq, Eq, Structural)]
pub enum ShutdownPhase {
    /// Ask the captured process at an index to end.
    Terminate(usize),
    /// Wait for the processes that were asked to end.
    AwaitTermination,
    /// End the process at an index of those that were asked to end.
    Kill(usize),
    /// Wait for the processes that were ended.
    AwaitKill,
    /// Look whether any of them is live.
    Confirm,
    /// All are gone.
    Stopped,
    /// Some are left.
    Survived,
}

/// What a step of a shutdown gave.
#[derive(Clone, Copy, Debug, PartialEq, Eq, Structural)]
pub enum ShutdownEvent {
    /// The process was gone already.
    Skipped,
    /// The process was signaled, or is gone.
    Signaled,
    /// All processes are gone or the time is over.
    Waited,
    /// Whether any process is live.
    Checked { some_live: bool },
}

/// A shutdown under way: the captured processes, and those that were asked to end.
pub struct Shutdown {
    identities: Vec<ProcessIdentity>,
    signaled: Vec<ProcessIdentity>,
    phase: ShutdownPhase,
}

/// What a shutdown is.
pub struct ShutdownText {
    pub identities: Seq<ProcessIdentity>,
    pub signaled: Seq<ProcessIdentity>,
    pub phase: ShutdownPhase,
}

impl View for Shutdown {
    type V = ShutdownText;

    closed spec fn view(&self) -> ShutdownText {
        ShutdownText {
            identities: self.identities@,
            signaled: self.signaled@,
            phase: self.phase,
        }
    }
}

/// The phase that asks the process at an index to end, or the one behind the last.
pub open spec fn terminate_from(count: nat, index: int) -> ShutdownPhase {
    if index < count {
        ShutdownPhase::Terminate(index as usize)
    } else {
        ShutdownPhase::AwaitTermination
    }
}

/// The phase that ends the process at an index, or the one behind the last.
pub open spec fn kill_from(count: nat, index: int) -> ShutdownPhase {
    if index < count {
        ShutdownPhase::Kill(index as usize)
    } else {
        ShutdownPhase::AwaitKill
    }
}

/// What a shutdown is after an event. An event that does not belong to the phase changes
/// nothing.
pub open spec fn shutdown_after(state: ShutdownText, event: ShutdownEvent) -> ShutdownText {
    let count = state.identities.len();
    match (state.phase, event) {
        (ShutdownPhase::Terminate(index), ShutdownEvent::Skipped) => ShutdownText {
            phase: terminate_from(count, index + 1),
            ..state
        },
        (ShutdownPhase::Terminate(index), ShutdownEvent::Signaled) => ShutdownText {
            identities: state.identities,
            signaled: state.signaled.push(state.identities[index as int]),
            phase: terminate_from(count, index + 1),
        },
        (ShutdownPhase::AwaitTermination, ShutdownEvent::Waited) => ShutdownText {
            phase: kill_from(state.signaled.len(), 0),
            ..state
        },
        (ShutdownPhase::Kill(index), ShutdownEvent::Signaled) => ShutdownText {
            phase: kill_from(state.signaled.len(), index + 1),
            ..state
        },
        (ShutdownPhase::AwaitKill, ShutdownEvent::Waited) => ShutdownText {
            phase: ShutdownPhase::Confirm,
            ..state
        },
        (ShutdownPhase::Confirm, ShutdownEvent::Checked { some_live }) => ShutdownText {
            phase: if some_live {
                ShutdownPhase::Survived
            } else {
                ShutdownPhase::Stopped
            },
            ..state
        },
        _ => state,
    }
}

/// Whether the phase of a shutdown names processes that there are, and only captured processes
/// were signaled.
pub open spec fn is_sound(state: ShutdownText) -> bool {
    &&& state.phase matches ShutdownPhase::Terminate(index) ==> index < state.identities.len()
    &&& state.phase matches ShutdownPhase::Kill(index) ==> index < state.signaled.len()
    &&& forall|i: int|
        0 <= i < state.signaled.len() ==> state.identities.contains(#[trigger] state.signaled[i])
}

impl Shutdown {
    /// Begins the shutdown of the captured processes.
    pub fn stop_process_identities(identities: Vec<ProcessIdentity>) -> (result: Self)
        ensures
            result@ == (ShutdownText {
                identities: identities@,
                signaled: Seq::empty(),
                phase: terminate_from(identities@.len(), 0),
            }),
            is_sound(result@),
    {
        let phase = if identities.len() > 0 {
            ShutdownPhase::Terminate(0)
        } else {
            ShutdownPhase::AwaitTermination
        };
        let result = Shutdown { identities, signaled: Vec::new(), phase };
        proof {
            assert(result@.signaled =~= Seq::<ProcessIdentity>::empty());
        }
        result
    }

    /// What is done next.
    pub fn phase(&self) -> (result: ShutdownPhase)
        ensures
            result == self@.phase,
    {
        self.phase
    }

    /// The process that the phase is about.
    pub fn process(&self) -> (result: Option<ProcessIdentity>)
        requires
            is_sound(self@),
        ensures
            result == (match self@.phase {
                ShutdownPhase::Terminate(index) => Some(self@.identities[index as int]),
                ShutdownPhase::Kill(index) => Some(self@.signaled[index as int]),
                _ => None,
            }),
    {
        match self.phase {
            ShutdownPhase::Terminate(index) => Some(self.identities[index]),
            ShutdownPhase::Kill(index) => Some(self.signaled[index]),
            _ => None,
        }
    }

    /// The processes that were asked to end.
    pub fn signaled(&self) -> (result: &Vec<ProcessIdentity>)
        ensures
            result@ == self@.signaled,
    {
        &self.signaled
    }

    /// Goes on after an event.
    pub fn observe(&mut self, event: ShutdownEvent)
        requires
            is_sound(old(self)@),
        ensures
            final(self)@ == shutdown_after(old(self)@, event),
            is_sound(final(self)@),
    {
        let ghost before = self@;
        match (self.phase, event) {
            (ShutdownPhase::Terminate(index), ShutdownEvent::Skipped) => {
                self.terminate_next(index);
            },
            (ShutdownPhase::Terminate(index), ShutdownEvent::Signaled) => {
                let identity = self.identities[index];
                self.signaled.push(identity);
                self.terminate_next(index);
                proof {
                    assert(self@.signaled =~= before.signaled.push(identity));
                    assert(before.identities.contains(before.identities[index as int]));
                }
            },
            (ShutdownPhase::AwaitTermination, ShutdownEvent::Waited) => {
                self.phase = if self.signaled.len() > 0 {
                    ShutdownPhase::Kill(0)
                } else {
                    ShutdownPhase::AwaitKill
                };
            },
            (ShutdownPhase::Kill(index), ShutdownEvent::Signaled) => {
                let count: usize = self.signaled.len();
                self.phase = if index + 1 < count {
                    ShutdownPhase::Kill(index + 1)
                } else {
                    ShutdownPhase::AwaitKill
                };
            },
            (ShutdownPhase::AwaitKill, ShutdownEvent::Waited) => {
                self.phase = ShutdownPhase::Confirm;
            },
            (ShutdownPhase::Confirm, ShutdownEvent::Checked { some_live }) => {
                self.phase = if some_live {
                    ShutdownPhase::Survived
                } else {
                    ShutdownPhase::Stopped
                };
            },
            _ => {},
        }
    }

    fn terminate_next(&mut self, index: usize)
        requires
            index < old(self)@.identities.len(),
        ensures
            final(self)@ == (ShutdownText {
                phase: terminate_from(old(self)@.identities.len(), index + 1),
                ..old(self)@
            }),
    {
        let count: usize = self.identities.len();
        self.phase = if index + 1 < count {
            ShutdownPhase::Terminate(index + 1)
        } else {
            ShutdownPhase::AwaitTermination
        };
    }

    /// The pids of the processes that were stopped, or that some survived: what a shutdown
    /// comes to once it was confirmed.
    pub fn outcome(&self) -> (result: Result<Vec<u32>, PortboardError>)
        requires
            self@.phase is Stopped || self@.phase is Survived,
        ensures
            match result {
                Ok(pids) => self@.phase is Stopped && pids@ == identity_pids(self@.signaled),
                Err(error) => self@.phase is Survived && error@ == failure(
                    "Portboard could not confirm process exit after SIGKILL"@,
                ),
            },
    {
        match self.phase {
            ShutdownPhase::Survived => {
                return Err(
                    PortboardError::new(
                        "Portboard could not confirm process exit after SIGKILL".to_owned(),
                    ),
                );
            },
            _ => {},
        }
        let ghost shown = identity_pids(self.signaled@);
        let mut pids: Vec<u32> = Vec::new();
        let mut index: usize = 0;
        while index < self.signaled.len()
            invariant
                index <= self.signaled.len(),
                shown == identity_pids(self.signaled@),
                pids@ == shown.take(index as int),
            decreases self.signaled.len() - index,
        {
            pids.push(self.signaled[index].pid);
            index += 1;
            proof {
                assert(shown.take(index as int) =~= shown.take(index - 1).push(shown[index - 1]));
            }
        }
        proof {
            assert(shown.take(shown.len() as int) =~= shown);
        }
        Ok(pids)
    }
}

/// The pids of some processes.
pub open spec fn identity_pids(identities: Seq<ProcessIdentity>) -> Seq<u32> {
    Seq::new(identities.len(), |i: int| identities[i].pid)
}

/// Whether there is a reason to wait on: some process is live, and there is time left.
pub fn keeps_waiting(some_live: bool, remaining: u64) -> (result: bool)
    ensures
        result == (some_live && remaining > 0),
{
    some_live && remaining > 0
}

/// What a shutdown of some processes is after some events.
pub open spec fn shutdown_run(
    identities: Seq<ProcessIdentity>,
    events: Seq<ShutdownEvent>,
) -> ShutdownText
    decreases events.len(),
{
    if events.len() == 0 {
        ShutdownText {
            identities,
            signaled: Seq::empty(),
            phase: terminate_from(identities.len(), 0),
        }
    } else {
        shutdown_after(shutdown_run(identities, events.drop_last()), events.last())
    }
}

/// A shutdown ends well only where none of the processes that were asked to end is live, and it
/// only ever signals captured processes.
pub proof fn shutdowns_are_confirmed(
    identities: Seq<ProcessIdentity>,
    events: Seq<ShutdownEvent>,
)
    ensures
        is_sound(shutdown_run(identities, events)),
        shutdown_run(identities, events).identities == identities,
        shutdown_run(identities, events).phase == ShutdownPhase::Stopped ==> events.contains(
            ShutdownEvent::Checked { some_live: false },
        ),
    decreases events.len(),
{
    if events.len() > 0 {
        let fewer = events.drop_last();
        shutdowns_are_confirmed(identities, fewer);
        let before = shutdown_run(identities, fewer);
        let after = shutdown_run(identities, events);
        assert forall|i: int| 0 <= i < after.signaled.len() implies after.identities.contains(
            #[trigger] after.signaled[i],
        ) by {
            if i < before.signaled.len() {
                assert(after.signaled[i] == before.signaled[i]);
            }
        }
        lemma_seen(events, ShutdownEvent::Checked { some_live: false });
    }
}

/// The captured processes that were gone already when their turn came.
pub open spec fn skipped(identities: Seq<ProcessIdentity>, events: Seq<ShutdownEvent>) -> Seq<
    ProcessIdentity,
>
    decreases events.len(),
{
    if events.len() == 0 {
        Seq::empty()
    } else {
        let before = skipped(identities, events.drop_last());
        match (shutdown_run(identities, events.drop_last()).phase, events.last()) {
            (ShutdownPhase::Terminate(index), ShutdownEvent::Skipped) => before.push(
                identities[index as int],
            ),
            _ => before,
        }
    }
}

/// How many captured processes had their turn by a phase.
pub open spec fn turns_taken(phase: ShutdownPhase, count: nat) -> int {
    match phase {
        ShutdownPhase::Terminate(index) => index as int,
        _ => count as int,
    }
}

/// No captured process is passed over: each whose turn came was asked to end or was gone
/// already, and behind the first phase that holds of all of them.
pub proof fn captured_processes_have_their_turn(
    identities: Seq<ProcessIdentity>,
    events: Seq<ShutdownEvent>,
)
    requires
        identities.len() <= usize::MAX,
    ensures
        forall|i: int|
            0 <= i < turns_taken(shutdown_run(identities, events).phase, identities.len())
                ==> shutdown_run(identities, events).signaled.contains(#[trigger] identities[i])
                || skipped(identities, events).contains(identities[i]),
    decreases events.len(),
{
    if events.len() > 0 {
        let fewer = events.drop_last();
        captured_processes_have_their_turn(identities, fewer);
        shutdowns_are_confirmed(identities, fewer);
        let before = shutdown_run(identities, fewer);
        let after = shutdown_run(identities, events);
        let gone = skipped(identities, fewer);
        let more = skipped(identities, events);
        assert forall|i: int| 0 <= i < turns_taken(after.phase, identities.len()) implies
            after.signaled.contains(#[trigger] identities[i]) || more.contains(identities[i]) by {
            if i < turns_taken(before.phase, identities.len()) {
                if before.signaled.contains(identities[i]) {
                    let at = choose|at: int|
                        0 <= at < before.signaled.len() && before.signaled[at] == identities[i];
                    assert(after.signaled[at] == identities[i]);
                } else {
                    let at = choose|at: int| 0 <= at < gone.len() && gone[at] == identities[i];
                    assert(more[at] == identities[i]);
                }
            } else if events.last() == ShutdownEvent::Skipped {
                assert(more[gone.len() as int] == identities[i]);
            } else {
                assert(after.signaled[before.signaled.len() as int] == identities[i]);
            }
        }
    }
}

/// A process is ended by force only behind the grace that it was given to end by itself.
pub proof fn force_comes_last(state: ShutdownText, event: ShutdownEvent)
    ensures
        shutdown_after(state, event).phase is Kill && !(state.phase is Kill) ==> state.phase
            == ShutdownPhase::AwaitTermination && event == ShutdownEvent::Waited,
        shutdown_after(state, event).phase is Kill ==> shutdown_after(state, event).signaled
            == state.signaled,
{
}

/// Whether the events of a stop show that a tab is to be closed: the runs lie in a workspace,
/// and their tab was found.
pub open spec fn tab_was_found(in_workspace: bool, events: Seq<StopEvent>) -> bool {
    in_workspace && events.contains(StopEvent::Scanned { some_owned: true }) && events.contains(
        StopEvent::TabLookedFor { found: true },
    )
}

/// Whether the events of a stop show that there is no tab to close: there is no workspace,
/// nothing in it is Portboard's, or no tab was found.
pub open spec fn no_tab_was_found(in_workspace: bool, events: Seq<StopEvent>) -> bool {
    !in_workspace || events.contains(StopEvent::Scanned { some_owned: false }) || events.contains(
        StopEvent::TabLookedFor { found: false },
    )
}

/// Each end of a stop has its reason among the events: a group is said to survive only where
/// there is one and it has members, runs are said to survive only where some were seen after the
/// signals, and a target is stopped only once its reservation was cleared and its tab, if one
/// was found, was closed.
pub proof fn stops_report_what_was_seen(
    in_workspace: bool,
    has_group: bool,
    events: Seq<StopEvent>,
)
    ensures
        match stop_run(in_workspace, has_group, events) {
            StopStep::LockAndScan => true,
            StopStep::FindTab => in_workspace && events.contains(
                StopEvent::Scanned { some_owned: true },
            ),
            StopStep::CaptureTrees { has_tab } => if has_tab {
                tab_was_found(in_workspace, events)
            } else {
                no_tab_was_found(in_workspace, events)
            },
            StopStep::Signal { has_tab } => events.contains(StopEvent::Captured) && if has_tab {
                tab_was_found(in_workspace, events)
            } else {
                no_tab_was_found(in_workspace, events)
            },
            StopStep::CheckGroup { has_tab } => has_group && events.contains(StopEvent::Captured)
                && events.contains(StopEvent::Signaled) && if has_tab {
                tab_was_found(in_workspace, events)
            } else {
                no_tab_was_found(in_workspace, events)
            },
            StopStep::CheckRuns { has_tab } => events.contains(StopEvent::Captured)
                && events.contains(StopEvent::Signaled) && if has_tab {
                tab_was_found(in_workspace, events)
            } else {
                no_tab_was_found(in_workspace, events)
            },
            StopStep::ClearReservation { has_tab } => events.contains(StopEvent::Captured)
                && events.contains(StopEvent::RunsChecked { has_runs: false }) && if has_tab {
                tab_was_found(in_workspace, events)
            } else {
                no_tab_was_found(in_workspace, events)
            },
            StopStep::CloseTab => events.contains(StopEvent::Cleared) && tab_was_found(
                in_workspace,
                events,
            ),
            StopStep::Stopped => events.contains(StopEvent::Captured) && events.contains(
                StopEvent::Cleared,
            ) && (no_tab_was_found(in_workspace, events) || tab_was_found(in_workspace, events)
                && events.contains(StopEvent::TabHandled)),
            StopStep::GroupSurvived => has_group && events.contains(StopEvent::Signaled)
                && events.contains(StopEvent::GroupChecked { has_members: true }),
            StopStep::RunsSurvived => events.contains(StopEvent::Signaled) && events.contains(
                StopEvent::RunsChecked { has_runs: true },
            ),
        },
        stop_run(in_workspace, has_group, events) is CloseTab ==> events.contains(
            StopEvent::Captured,
        ),
    decreases events.len(),
{
    if events.len() > 0 {
        stops_report_what_was_seen(in_workspace, has_group, events.drop_last());
        lemma_all_seen(events);
    }
}

/// A stop comes to its end for everything that can be seen on the way: with a group that is left
/// it ends there, with runs that are left it ends there, and otherwise the reservation is
/// cleared, the tab is closed where one was found, and the target is stopped.
pub proof fn stops_come_to_their_end(
    in_workspace: bool,
    has_group: bool,
    some_owned: bool,
    found: bool,
    has_members: bool,
    has_runs: bool,
)
    ensures
        ({
            let scanned = stop_after(
                in_workspace,
                has_group,
                StopStep::LockAndScan,
                StopEvent::Scanned { some_owned },
            );
            let looked = in_workspace && some_owned;
            let located = if looked {
                stop_after(in_workspace, has_group, scanned, StopEvent::TabLookedFor { found })
            } else {
                scanned
            };
            let signaled = stop_after(
                in_workspace,
                has_group,
                stop_after(in_workspace, has_group, located, StopEvent::Captured),
                StopEvent::Signaled,
            );
            let grouped = if has_group {
                stop_after(
                    in_workspace,
                    has_group,
                    signaled,
                    StopEvent::GroupChecked { has_members },
                )
            } else {
                signaled
            };
            let checked = stop_after(
                in_workspace,
                has_group,
                grouped,
                StopEvent::RunsChecked { has_runs },
            );
            let cleared = stop_after(in_workspace, has_group, checked, StopEvent::Cleared);
            let closed = stop_after(in_workspace, has_group, cleared, StopEvent::TabHandled);
            let survived = has_group && has_members || has_runs;
            &&& has_group && has_members ==> grouped == StopStep::GroupSurvived
            &&& !(has_group && has_members) && has_runs ==> checked == StopStep::RunsSurvived
            &&& !survived && !(looked && found) ==> cleared == StopStep::Stopped
            &&& !survived && looked && found ==> cleared == StopStep::CloseTab && closed
                == StopStep::Stopped
        }),
{
}

/// Whether an event is what a step of a stop asks for.
pub open spec fn answers_stop(step: StopStep, event: StopEvent) -> bool {
    match step {
        StopStep::LockAndScan => event is Scanned,
        StopStep::FindTab => event is TabLookedFor,
        StopStep::CaptureTrees { .. } => event is Captured,
        StopStep::Signal { .. } => event is Signaled,
        StopStep::CheckGroup { .. } => event is GroupChecked,
        StopStep::CheckRuns { .. } => event is RunsChecked,
        StopStep::ClearReservation { .. } => event is Cleared,
        StopStep::CloseTab => event is TabHandled,
        StopStep::Stopped | StopStep::GroupSurvived | StopStep::RunsSurvived => false,
    }
}

/// A stop moves on exactly where the event is the one that its step asks for: what comes out of
/// turn changes nothing, and an end is the end. It fails where something survived, and nowhere
/// else.
pub proof fn stops_move_in_turn(
    in_workspace: bool,
    has_group: bool,
    step: StopStep,
    event: StopEvent,
)
    ensures
        stop_after(in_workspace, has_group, step, event) != step <==> answers_stop(step, event),
        stop_failure(step) is Some <==> step is GroupSurvived || step is RunsSurvived,
{
}

/// What is stopped is every run, in order, and the process that holds the reservation, which is
/// stopped once though it be a run.
pub proof fn reserved_processes_are_stopped_too(
    runs: Seq<RunText>,
    reservation: Option<ProcessIdentity>,
    identity: ProcessIdentity,
)
    ensures
        run_identities(stopped_runs(runs, reservation)).contains(identity) <==> run_identities(
            runs,
        ).contains(identity) || reservation == Some(identity),
        runs.len() <= stopped_runs(runs, reservation).len() <= runs.len() + 1,
        stopped_runs(runs, reservation).take(runs.len() as int) == runs,
        reservation is None || run_identities(runs).contains(reservation->0) ==> stopped_runs(
            runs,
            reservation,
        ).len() == runs.len(),
{
    let all = stopped_runs(runs, reservation);
    assert(all.take(runs.len() as int) =~= runs);
    let before = run_identities(runs);
    let after = run_identities(all);
    if before.contains(identity) {
        let at = choose|at: int| 0 <= at < before.len() && before[at] == identity;
        assert(after[at] == identity);
    }
    if after.contains(identity) {
        let at = choose|at: int| 0 <= at < after.len() && after[at] == identity;
        if at < runs.len() {
            assert(before[at] == identity);
        }
    }
    if reservation == Some(identity) && !before.contains(identity) {
        assert(after[runs.len() as int] == identity);
    }
}

/// The owned runs are exactly those that hold the reservation or whose environment carries the
/// target's identity, in the order of the runs.
pub proof fn owned_runs_are_reserved_or_marked(
    runs: Seq<RunText>,
    environments: Seq<Option<Vec<u8>>>,
    reservation: Option<ProcessIdentity>,
    target_id: Seq<char>,
    count: int,
    run: RunText,
)
    requires
        0 <= count <= runs.len(),
        environments.len() == runs.len(),
    ensures
        owned_among(runs, environments, reservation, target_id, count).contains(run)
            <==> exists|i: int|
            0 <= i < count && #[trigger] runs[i] == run && (reservation == Some(
                ProcessIdentity { pid: run.pid, start_time: run.start_time },
            ) || environments[i] is Some && environment_holds(
                environments[i]->0@,
                "PORTBOARD_TARGET_ID="@ + target_id,
            )),
    decreases count,
{
    if count > 0 {
        owned_runs_are_reserved_or_marked(
            runs,
            environments,
            reservation,
            target_id,
            count - 1,
            run,
        );
        let before = owned_among(runs, environments, reservation, target_id, count - 1);
        let after = owned_among(runs, environments, reservation, target_id, count);
        if before.contains(run) {
            let at = choose|at: int| 0 <= at < before.len() && before[at] == run;
            assert(after[at] == run);
        }
        if after.len() > before.len() {
            assert(after[before.len() as int] == runs[count - 1]);
            if after.contains(run) && !before.contains(run) {
                let at = choose|at: int| 0 <= at < after.len() && after[at] == run;
                if at < before.len() {
                    assert(before[at] == run);
                }
                assert(runs[count - 1] == run);
            }
        }
    }
}

/// The captured processes that are left when some of them turned out to be gone, in order.
pub open spec fn left_among(
    identities: Seq<ProcessIdentity>,
    gone: Seq<bool>,
    count: int,
) -> Seq<ProcessIdentity>
    decreases count,
{
    if count <= 0 {
        Seq::empty()
    } else if gone[count - 1] {
        left_among(identities, gone, count - 1)
    } else {
        left_among(identities, gone, count - 1).push(identities[count - 1])
    }
}

/// What asking each captured process to end gives: some are gone, the others are signaled.
pub open spec fn asked_to_end(gone: Seq<bool>) -> Seq<ShutdownEvent> {
    Seq::new(
        gone.len(),
        |i: int|
            if gone[i] {
                ShutdownEvent::Skipped
            } else {
                ShutdownEvent::Signaled
            },
    )
}

/// What ending some processes one by one gives.
pub open spec fn ended_in_turn(count: nat) -> Seq<ShutdownEvent> {
    Seq::new(count, |i: int| ShutdownEvent::Signaled)
}

/// A shutdown asks each captured process in turn to end, waits, ends each one that was not gone
/// in turn, waits, and looks once more: it is done exactly where none is live then, and names
/// exactly those that were not gone.
pub proof fn shutdowns_come_to_their_end(
    identities: Seq<ProcessIdentity>,
    gone: Seq<bool>,
    some_live: bool,
)
    requires
        gone.len() == identities.len() <= usize::MAX,
    ensures
        ({
            let left = left_among(identities, gone, gone.len() as int);
            let asked = asked_to_end(gone).push(ShutdownEvent::Waited);
            let ended = asked + ended_in_turn(left.len());
            let waited = ended.push(ShutdownEvent::Waited);
            let state = shutdown_run(
                identities,
                waited.push(ShutdownEvent::Checked { some_live }),
            );
            &&& forall|k: int|
                0 <= k < gone.len() ==> shutdown_run(
                    identities,
                    #[trigger] asked_to_end(gone).take(k),
                ).phase == ShutdownPhase::Terminate(k as usize)
            &&& shutdown_run(identities, asked_to_end(gone)).phase
                == ShutdownPhase::AwaitTermination
            &&& forall|k: int|
                0 <= k < left.len() ==> shutdown_run(
                    identities,
                    asked + #[trigger] ended_in_turn(k as nat),
                ).phase == ShutdownPhase::Kill(k as usize)
            &&& shutdown_run(identities, ended).phase == ShutdownPhase::AwaitKill
            &&& shutdown_run(identities, waited).phase == ShutdownPhase::Confirm
            &&& state.identities == identities
            &&& state.signaled == left
            &&& state.phase == if some_live {
                ShutdownPhase::Survived
            } else {
                ShutdownPhase::Stopped
            }
        }),
{
    let left = left_among(identities, gone, gone.len() as int);
    let all = asked_to_end(gone);
    let asked = all.push(ShutdownEvent::Waited);
    assert forall|k: int| 0 <= k < gone.len() implies shutdown_run(
        identities,
        #[trigger] all.take(k),
    ).phase == ShutdownPhase::Terminate(k as usize) by {
        lemma_asked(identities, gone, k);
    }
    lemma_asked(identities, gone, gone.len() as int);
    assert(all.take(gone.len() as int) =~= all);
    lemma_left_bound(identities, gone, gone.len() as int);
    assert forall|k: int| 0 <= k < left.len() implies shutdown_run(
        identities,
        asked + #[trigger] ended_in_turn(k as nat),
    ).phase == ShutdownPhase::Kill(k as usize) by {
        lemma_ended(identities, gone, k as nat);
    }
    lemma_ended(identities, gone, left.len());
    let ended = asked + ended_in_turn(left.len());
    let waited = ended.push(ShutdownEvent::Waited);
    assert(waited.drop_last() =~= ended);
    assert(waited.push(ShutdownEvent::Checked { some_live }).drop_last() =~= waited);
}

proof fn lemma_left_bound(identities: Seq<ProcessIdentity>, gone: Seq<bool>, count: int)
    requires
        0 <= count <= gone.len(),
    ensures
        left_among(identities, gone, count).len() <= count,
    decreases count,
{
    if count > 0 {
        lemma_left_bound(identities, gone, count - 1);
    }
}

proof fn lemma_asked(identities: Seq<ProcessIdentity>, gone: Seq<bool>, count: int)
    requires
        gone.len() == identities.len() <= usize::MAX,
        0 <= count <= gone.len(),
    ensures
        shutdown_run(identities, asked_to_end(gone).take(count)).identities == identities,
        shutdown_run(identities, asked_to_end(gone).take(count)).signaled == left_among(
            identities,
            gone,
            count,
        ),
        shutdown_run(identities, asked_to_end(gone).take(count)).phase == (if count < gone.len() {
            ShutdownPhase::Terminate(count as usize)
        } else {
            ShutdownPhase::AwaitTermination
        }),
    decreases count,
{
    let events = asked_to_end(gone).take(count);
    if count > 0 {
        lemma_asked(identities, gone, count - 1);
        assert(events.drop_last() =~= asked_to_end(gone).take(count - 1));
    }
}

proof fn lemma_ended(identities: Seq<ProcessIdentity>, gone: Seq<bool>, count: nat)
    requires
        gone.len() == identities.len() <= usize::MAX,
        count <= left_among(identities, gone, gone.len() as int).len(),
    ensures
        ({
            let left = left_among(identities, gone, gone.len() as int);
            let state = shutdown_run(
                identities,
                asked_to_end(gone).push(ShutdownEvent::Waited) + ended_in_turn(count),
            );
            &&& state.identities == identities
            &&& state.signaled == left
            &&& state.phase == if count < left.len() {
                ShutdownPhase::Kill(count as usize)
            } else {
                ShutdownPhase::AwaitKill
            }
        }),
    decreases count,
{
    let all = asked_to_end(gone);
    let asked = all.push(ShutdownEvent::Waited);
    let events = asked + ended_in_turn(count);
    lemma_left_bound(identities, gone, gone.len() as int);
    if count == 0 {
        lemma_asked(identities, gone, gone.len() as int);
        assert(all.take(gone.len() as int) =~= all);
        assert(events =~= asked);
        assert(events.drop_last() =~= all);
    } else {
        let fewer = (count - 1) as nat;
        lemma_ended(identities, gone, fewer);
        assert(events.drop_last() =~= asked + ended_in_turn(fewer));
        assert(events.last() == ShutdownEvent::Signaled);
    }
}

/// A shutdown changes only where the event is one that its phase asks for: what comes out of turn
/// changes nothing, and an end is the end.
pub proof fn shutdowns_move_in_turn(state: ShutdownText, event: ShutdownEvent)
    ensures
        shutdown_after(state, event) != state ==> match state.phase {
            ShutdownPhase::Terminate(_) => event is Skipped || event is Signaled,
            ShutdownPhase::AwaitTermination | ShutdownPhase::AwaitKill => event is Waited,
            ShutdownPhase::Kill(_) => event is Signaled,
            ShutdownPhase::Confirm => event is Checked,
            ShutdownPhase::Stopped | ShutdownPhase::Survived => false,
        },
{
}

/// The owned runs are listed in the order of the runs, each once: looking at more runs adds to
/// what was found, at most one for each.
pub proof fn owned_runs_are_listed_in_order(
    runs: Seq<RunText>,
    environments: Seq<Option<Vec<u8>>>,
    reservation: Option<ProcessIdentity>,
    target_id: Seq<char>,
    few: int,
    many: int,
)
    requires
        0 <= few <= many <= runs.len(),
    ensures
        ({
            let before = owned_among(runs, environments, reservation, target_id, few);
            let after = owned_among(runs, environments, reservation, target_id, many);
            before.len() <= after.len() <= before.len() + (many - few) && after.take(
                before.len() as int,
            ) == before
        }),
    decreases many - few,
{
    let before = owned_among(runs, environments, reservation, target_id, few);
    let after = owned_among(runs, environments, reservation, target_id, many);
    if few < many {
        owned_runs_are_listed_in_order(
            runs,
            environments,
            reservation,
            target_id,
            few,
            many - 1,
        );
        let between = owned_among(runs, environments, reservation, target_id, many - 1);
        assert(after.take(before.len() as int) =~= between.take(before.len() as int));
    } else {
        assert(after.take(before.len() as int) =~= before);
    }
}

} // verus!
