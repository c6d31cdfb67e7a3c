//! Ensuring that a launch target runs in its own tab.
use vstd::prelude::*;
use vstd::string::*;

use crate::launch_target_config::{
    configured_target, found_target, lookup_text, target_texts, targets_are_found_by_id,
    LaunchTarget, PortboardConfig, TargetText,
};
use crate::numbers::{decimal, push_decimal};
use crate::ordered::{lemma_all_seen, lemma_seen};
use crate::portboard_error::{failure, refusal, ErrorText, PortboardError};
use crate::runtime_metadata::RuntimeEndpoint;
use crate::text::optional_text;

verus! {

/// How many nanoseconds a target has to become ready.
pub const DEFAULT_READINESS_TIMEOUT: u64 = 30000000000;

/// Observable result of idempotently ensuring one launch target in Herdr.
#[derive(Clone, Copy, Debug, PartialEq, Eq, Structural)]
pub enum EnsureLaunchTargetOutcome {
    Started,
    AlreadyRunning,
    Starting,
}

/// Result of ensuring a launch target, including its primary URL after readiness.
#[derive(Debug, PartialEq, Eq)]
pub struct EnsureLaunchTargetResult {
    pub outcome: EnsureLaunchTargetOutcome,
    pub primary_endpoint: Option<RuntimeEndpoint>,
}

impl EnsureLaunchTargetOutcome {
    /// The words for an outcome.
    pub fn words(self) -> (result: &'static str)
        ensures
            result@ == (match self {
                EnsureLaunchTargetOutcome::Started => "started"@,
                EnsureLaunchTargetOutcome::AlreadyRunning => "already running"@,
                EnsureLaunchTargetOutcome::Starting => "starting"@,
            }),
    {
        match self {
            EnsureLaunchTargetOutcome::Started => "started",
            EnsureLaunchTargetOutcome::AlreadyRunning => "already running",
            EnsureLaunchTargetOutcome::Starting => "starting",
        }
    }
}

/// The target that is to run, in a workspace.
pub open spec fn ensured_target(
    targets: Seq<TargetText>,
    workspace: Option<Seq<char>>,
    target_id: Seq<char>,
) -> Result<TargetText, ErrorText> {
    match workspace {
        None => Err(
            failure(
                "Portboard ensure --herdr requires a Herdr workspace; run it inside the target workspace"@,
            ),
        ),
        Some(_) => found_target(targets, target_id),
    }
}

/// Finds the target that is to run. There must be a workspace to run it in.
pub fn find_launch_target<'a>(
    config: &'a PortboardConfig,
    workspace_id: &Option<String>,
    target_id: &str,
) -> (result: Result<&'a LaunchTarget, PortboardError>)
    ensures
        lookup_text(result) == ensured_target(
            target_texts(config.launch_targets@),
            optional_text(*workspace_id),
            target_id@,
        ),
{
    match workspace_id {
        None => Err(
            PortboardError::new(
                "Portboard ensure --herdr requires a Herdr workspace; run it inside the target workspace".to_owned(),
            ),
        ),
        Some(_) => configured_target(&config.launch_targets, target_id),
    }
}

/// How far the ensuring of a target has come: what is to be done next.
#[derive(Clone, Copy, Debug, PartialEq, Eq, Structural)]
pub enum EnsureStep {
    /// Lock the target and look for its runs.
    LockAndScan,
    /// Clear the reservation of a target that runs.
    Clear { runs: usize },
    /// Look whether the runs are in tabs that Portboard started.
    CheckHost { runs: usize, outcome: EnsureLaunchTargetOutcome },
    /// Look for a reservation of the target.
    CheckReservation,
    /// Let go of the lock, and wait for the process of the target to appear.
    AwaitProcess,
    /// Have the command approved.
    Approve,
    /// Start the target in a tab.
    Launch,
    /// Reserve the target for what was started, and let go of the lock.
    Reserve { pid: u32 },
    /// Wait until the target is ready.
    AwaitReady { outcome: EnsureLaunchTargetOutcome },
    /// Say what came of it.
    Done { outcome: EnsureLaunchTargetOutcome },
    /// The target runs outside its tab.
    RunsElsewhere,
    /// The target runs so many times.
    RunsTwice { runs: usize },
}

/// What a step of the ensuring of a target gave.
#[derive(Clone, Copy, Debug, PartialEq, Eq, Structural)]
pub enum EnsureEvent {
    Scanned { runs: usize },
    Cleared,
    /// Whether some run was started by Portboard and lies in a tab of the workspace.
    HostChecked { owned_in_workspace: bool },
    Reservation { active: bool },
    /// So many runs appeared.
    Appeared { runs: usize },
    Approved,
    Launched { pid: u32 },
    Reserved,
    Ready,
}

/// The step that waits until a target is ready, where that is wanted.
pub open spec fn ready_or_done(wait: bool, outcome: EnsureLaunchTargetOutcome) -> EnsureStep {
    if wait {
        EnsureStep::AwaitReady { outcome }
    } else {
        EnsureStep::Done { outcome }
    }
}

/// What is done next, waiting for readiness or not. An event that does not belong to the step
/// leaves it as it is.
pub open spec fn ensure_after(wait: bool, step: EnsureStep, event: EnsureEvent) -> EnsureStep {
    match (step, event) {
        (EnsureStep::LockAndScan, EnsureEvent::Scanned { runs }) => if runs == 0 {
            EnsureStep::CheckReservation
        } else {
            EnsureStep::Clear { runs }
        },
        (EnsureStep::Clear { runs }, EnsureEvent::Cleared) => EnsureStep::CheckHost {
            runs,
            outcome: EnsureLaunchTargetOutcome::AlreadyRunning,
        },
        (
            EnsureStep::CheckHost { runs, outcome },
            EnsureEvent::HostChecked { owned_in_workspace },
        ) => if !owned_in_workspace {
            EnsureStep::RunsElsewhere
        } else if runs > 1 {
            EnsureStep::RunsTwice { runs }
        } else {
            ready_or_done(wait, outcome)
        },
        (EnsureStep::CheckReservation, EnsureEvent::Reservation { active }) => if active {
            EnsureStep::AwaitProcess
        } else {
            EnsureStep::Approve
        },
        (EnsureStep::AwaitProcess, EnsureEvent::Appeared { runs }) => EnsureStep::CheckHost {
            runs,
            outcome: EnsureLaunchTargetOutcome::Starting,
        },
        (EnsureStep::Approve, EnsureEvent::Approved) => EnsureStep::Launch,
        (EnsureStep::Launch, EnsureEvent::Launched { pid }) => EnsureStep::Reserve { pid },
        (EnsureStep::Reserve { .. }, EnsureEvent::Reserved) => ready_or_done(
            wait,
            EnsureLaunchTargetOutcome::Started,
        ),
        (EnsureStep::AwaitReady { outcome }, EnsureEvent::Ready) => EnsureStep::Done { outcome },
        _ => step,
    }
}

fn wait_if_requested(wait: bool, outcome: EnsureLaunchTargetOutcome) -> (result: EnsureStep)
    ensures
        result == ready_or_done(wait, outcome),
{
    if wait {
        EnsureStep::AwaitReady { outcome }
    } else {
        EnsureStep::Done { outcome }
    }
}

/// Ensures a target runs in a Portboard-owned Herdr tab without changing focus: says what is
/// done next.
pub fn ensure_launch_target_in_herdr(
    wait_until_ready: bool,
    step: EnsureStep,
    event: EnsureEvent,
) -> (result: EnsureStep)
    ensures
        result == ensure_after(wait_until_ready, step, event),
{
    match (step, event) {
        (EnsureStep::LockAndScan, EnsureEvent::Scanned { runs }) => {
            if runs == 0 {
                EnsureStep::CheckReservation
            } else {
                EnsureStep::Clear { runs }
            }
        },
        (EnsureStep::Clear { runs }, EnsureEvent::Cleared) => EnsureStep::CheckHost {
            runs,
            outcome: EnsureLaunchTargetOutcome::AlreadyRunning,
        },
        (
            EnsureStep::CheckHost { runs, outcome },
            EnsureEvent::HostChecked { owned_in_workspace },
        ) => {
            if !owned_in_workspace {
                EnsureStep::RunsElsewhere
            } else if runs > 1 {
                EnsureStep::RunsTwice { runs }
            } else {
                wait_if_requested(wait_until_ready, outcome)
            }
        },
        (EnsureStep::CheckReservation, EnsureEvent::Reservation { active }) => {
            if active {
                EnsureStep::AwaitProcess
            } else {
                EnsureStep::Approve
            }
        },
        (EnsureStep::AwaitProcess, EnsureEvent::Appeared { runs }) => EnsureStep::CheckHost {
            runs,
            outcome: EnsureLaunchTargetOutcome::Starting,
        },
        (EnsureStep::Approve, EnsureEvent::Approved) => EnsureStep::Launch,
        (EnsureStep::Launch, EnsureEvent::Launched { pid }) => EnsureStep::Reserve { pid },
        (EnsureStep::Reserve { .. }, EnsureEvent::Reserved) => wait_if_requested(
            wait_until_ready,
            EnsureLaunchTargetOutcome::Started,
        ),
        (EnsureStep::AwaitReady { outcome }, EnsureEvent::Ready) => EnsureStep::Done { outcome },
        (step, _) => step,
    }
}

/// Why a target is not ensured, where it is not.
pub open spec fn ensure_failure(step: EnsureStep, target_id: Seq<char>) -> Option<ErrorText> {
    let retry = "retry `portboard ensure "@ + target_id + " --herdr --wait`"@;
    match step {
        EnsureStep::RunsElsewhere => Some(
            failure(
                "Portboard launch target `"@ + target_id
                    + "` is running outside its Portboard-owned Herdr tab; stop it, then "@
                    + retry,
            ),
        ),
        EnsureStep::RunsTwice { runs } => Some(
            failure(
                "Portboard launch target `"@ + target_id + "` has "@ + decimal(runs as nat)
                    + " duplicate instances running; stop them, then "@ + retry,
            ),
        ),
        _ => None,
    }
}

/// Requires that the runs of a target are in its own tab, and are not several.
pub fn require_portboard_herdr_run(step: EnsureStep, target_id: &str) -> (result: Result<
    (),
    PortboardError,
>)
    ensures
        refusal(result) == ensure_failure(step, target_id@),
{
    let mut retry = "retry `portboard ensure ".to_owned();
    retry.append(target_id);
    retry.append(" --herdr --wait`");
    let mut message = "Portboard launch target `".to_owned();
    message.append(target_id);
    match step {
        EnsureStep::RunsElsewhere => {
            message.append("` is running outside its Portboard-owned Herdr tab; stop it, then ");
            message.append(retry.as_str());
            Err(PortboardError::new(message))
        },
        EnsureStep::RunsTwice { runs } => {
            message.append("` has ");
            push_decimal(&mut message, runs as u64);
            message.append(" duplicate instances running; stop them, then ");
            message.append(retry.as_str());
            Err(PortboardError::new(message))
        },
        _ => Ok(()),
    }
}

/// Where the ensuring of a target stands after some events.
pub open spec fn ensure_run(wait: bool, events: Seq<EnsureEvent>) -> EnsureStep
    decreases events.len(),
{
    if events.len() == 0 {
        EnsureStep::LockAndScan
    } else {
        ensure_after(wait, ensure_run(wait, events.drop_last()), events.last())
    }
}

/// Whether a target is started, or was.
pub open spec fn ensures_by_starting(step: EnsureStep) -> bool {
    ||| step is Launch
    ||| step is Reserve
    ||| step == (EnsureStep::AwaitReady { outcome: EnsureLaunchTargetOutcome::Started })
    ||| step == (EnsureStep::Done { outcome: EnsureLaunchTargetOutcome::Started })
}

/// Whether a target that ran already is taken as it is.
pub open spec fn ensures_by_finding(step: EnsureStep) -> bool {
    ||| step is AwaitReady && !ensures_by_starting(step)
    ||| step is Done && !ensures_by_starting(step)
}

/// A target is started only where no run was found, nobody else was starting it, and its
/// command was approved; and a run is taken for the target's only where it is in a tab of the
/// workspace that Portboard started, and is never said to have been started. A wait that is
/// wanted is never left out.
pub proof fn ensured_targets_are_portboards(wait: bool, events: Seq<EnsureEvent>)
    ensures
        ensures_by_starting(ensure_run(wait, events)) ==> events.contains(
            EnsureEvent::Scanned { runs: 0 },
        ) && events.contains(EnsureEvent::Reservation { active: false }) && events.contains(
            EnsureEvent::Approved,
        ),
        ensures_by_finding(ensure_run(wait, events)) ==> events.contains(
            EnsureEvent::HostChecked { owned_in_workspace: true },
        ),
        ensure_run(wait, events) is Approve ==> events.contains(
            EnsureEvent::Scanned { runs: 0 },
        ) && events.contains(EnsureEvent::Reservation { active: false }),
        ensure_run(wait, events) is CheckReservation ==> events.contains(
            EnsureEvent::Scanned { runs: 0 },
        ),
        ensure_run(wait, events) is CheckHost ==> ensure_run(wait, events)->CheckHost_outcome
            != EnsureLaunchTargetOutcome::Started,
        ensure_run(wait, events) is Done && wait ==> events.contains(EnsureEvent::Ready),
    decreases events.len(),
{
    if events.len() > 0 {
        ensured_targets_are_portboards(wait, events.drop_last());
        lemma_seen(events, EnsureEvent::Scanned { runs: 0 });
        lemma_seen(events, EnsureEvent::Reservation { active: false });
        lemma_seen(events, EnsureEvent::Approved);
        lemma_seen(events, EnsureEvent::Ready);
        lemma_seen(events, EnsureEvent::HostChecked { owned_in_workspace: true });
    }
}

/// What is said of a target has its reason among the events: a started one was launched and
/// reserved, one that ran already was found as a single run, one that was starting appeared
/// while somebody held its reservation, and either is taken only in a tab that Portboard
/// started. The refusals name what was seen, and a target that is to be ready is waited for.
pub proof fn outcomes_have_their_reason(wait: bool, events: Seq<EnsureEvent>)
    ensures
        match ensure_run(wait, events) {
            EnsureStep::LockAndScan => true,
            EnsureStep::Clear { runs } => runs > 0 && events.contains(
                EnsureEvent::Scanned { runs },
            ),
            EnsureStep::CheckHost { runs, outcome } => match outcome {
                EnsureLaunchTargetOutcome::Started => false,
                EnsureLaunchTargetOutcome::AlreadyRunning => runs > 0 && events.contains(
                    EnsureEvent::Scanned { runs },
                ) && events.contains(EnsureEvent::Cleared),
                EnsureLaunchTargetOutcome::Starting => events.contains(
                    EnsureEvent::Appeared { runs },
                ) && events.contains(EnsureEvent::Reservation { active: true }),
            },
            EnsureStep::CheckReservation => events.contains(EnsureEvent::Scanned { runs: 0 }),
            EnsureStep::AwaitProcess => events.contains(EnsureEvent::Reservation { active: true }),
            EnsureStep::Approve => events.contains(EnsureEvent::Reservation { active: false }),
            EnsureStep::Launch => events.contains(EnsureEvent::Approved),
            EnsureStep::Reserve { pid } => events.contains(EnsureEvent::Launched { pid }),
            EnsureStep::AwaitReady { outcome } | EnsureStep::Done { outcome } => match outcome {
                EnsureLaunchTargetOutcome::Started => events.contains(EnsureEvent::Reserved)
                    && exists|pid: u32| #[trigger]
                    events.contains(EnsureEvent::Launched { pid }),
                EnsureLaunchTargetOutcome::AlreadyRunning => events.contains(
                    EnsureEvent::Scanned { runs: 1 },
                ) && events.contains(EnsureEvent::HostChecked { owned_in_workspace: true }),
                EnsureLaunchTargetOutcome::Starting => events.contains(
                    EnsureEvent::Reservation { active: true },
                ) && events.contains(EnsureEvent::HostChecked { owned_in_workspace: true })
                    && exists|runs: usize|
                    runs <= 1 && #[trigger] events.contains(EnsureEvent::Appeared { runs }),
            },
            EnsureStep::RunsElsewhere => events.contains(
                EnsureEvent::HostChecked { owned_in_workspace: false },
            ),
            EnsureStep::RunsTwice { runs } => runs > 1 && events.contains(
                EnsureEvent::HostChecked { owned_in_workspace: true },
            ) && (events.contains(EnsureEvent::Scanned { runs }) || events.contains(
                EnsureEvent::Appeared { runs },
            )),
        },
        ensure_run(wait, events) is AwaitReady ==> wait,
        ensure_run(wait, events) is Done && wait ==> events.contains(EnsureEvent::Ready),
    decreases events.len(),
{
    if events.len() > 0 {
        outcomes_have_their_reason(wait, events.drop_last());
        lemma_all_seen(events);
    }
}

/// A target that runs, or appears while somebody else starts it, is taken as it is where it is a
/// single run in a tab that Portboard started; otherwise it is refused, for its place first and
/// then for its number.
pub proof fn running_targets_are_taken(wait: bool, runs: usize, owned: bool, appeared: bool)
    requires
        runs > 0,
    ensures
        ({
            let first = ensure_after(
                wait,
                EnsureStep::LockAndScan,
                EnsureEvent::Scanned { runs: if appeared { 0 } else { runs } },
            );
            let found = if appeared {
                ensure_after(
                    wait,
                    ensure_after(wait, first, EnsureEvent::Reservation { active: true }),
                    EnsureEvent::Appeared { runs },
                )
            } else {
                ensure_after(wait, first, EnsureEvent::Cleared)
            };
            let checked = ensure_after(
                wait,
                found,
                EnsureEvent::HostChecked { owned_in_workspace: owned },
            );
            let outcome = if appeared {
                EnsureLaunchTargetOutcome::Starting
            } else {
                EnsureLaunchTargetOutcome::AlreadyRunning
            };
            &&& !owned ==> checked == EnsureStep::RunsElsewhere
            &&& owned && runs > 1 ==> checked == (EnsureStep::RunsTwice { runs })
            &&& owned && runs == 1 && !wait ==> checked == (EnsureStep::Done { outcome })
            &&& owned && runs == 1 && wait ==> checked == (EnsureStep::AwaitReady { outcome })
                && ensure_after(wait, checked, EnsureEvent::Ready) == (EnsureStep::Done {
                outcome,
            })
        }),
{
}

/// A target without a run that nobody else is starting is approved, launched and reserved for
/// what was launched, and said to be started, once it is ready where that is waited for.
pub proof fn idle_targets_are_launched(wait: bool, pid: u32)
    ensures
        ({
            let checked = ensure_after(
                wait,
                ensure_after(wait, EnsureStep::LockAndScan, EnsureEvent::Scanned { runs: 0 }),
                EnsureEvent::Reservation { active: false },
            );
            let launched = ensure_after(
                wait,
                ensure_after(wait, checked, EnsureEvent::Approved),
                EnsureEvent::Launched { pid },
            );
            let reserved = ensure_after(wait, launched, EnsureEvent::Reserved);
            let outcome = EnsureLaunchTargetOutcome::Started;
            &&& launched == (EnsureStep::Reserve { pid })
            &&& !wait ==> reserved == (EnsureStep::Done { outcome })
            &&& wait ==> reserved == (EnsureStep::AwaitReady { outcome }) && ensure_after(
                wait,
                reserved,
                EnsureEvent::Ready,
            ) == (EnsureStep::Done { outcome })
        }),
{
}

/// Whether an event is what a step of the ensuring of a target asks for.
pub open spec fn answers_ensuring(step: EnsureStep, event: EnsureEvent) -> bool {
    match step {
        EnsureStep::LockAndScan => event is Scanned,
        EnsureStep::Clear { .. } => event is Cleared,
        EnsureStep::CheckHost { .. } => event is HostChecked,
        EnsureStep::CheckReservation => event is Reservation,
        EnsureStep::AwaitProcess => event is Appeared,
        EnsureStep::Approve => event is Approved,
        EnsureStep::Launch => event is Launched,
        EnsureStep::Reserve { .. } => event is Reserved,
        EnsureStep::AwaitReady { .. } => event is Ready,
        EnsureStep::Done { .. } | EnsureStep::RunsElsewhere | EnsureStep::RunsTwice { .. } => false,
    }
}

/// The ensuring of a target moves on exactly where the event is the one that its step asks for:
/// what comes out of turn changes nothing, and an outcome or a refusal is the end.
pub proof fn ensuring_moves_in_turn(wait: bool, step: EnsureStep, event: EnsureEvent)
    ensures
        ensure_after(wait, step, event) != step <==> answers_ensuring(step, event),
{
}

/// A target is ensured only in a workspace, and is then the configured one with its id.
pub proof fn ensuring_needs_a_workspace(
    targets: Seq<TargetText>,
    workspace: Option<Seq<char>>,
    target_id: Seq<char>,
)
    ensures
        match ensured_target(targets, workspace, target_id) {
            Ok(target) => workspace is Some && target.id == target_id && targets.contains(target),
            Err(_) => workspace is None || forall|i: int|
                0 <= i < targets.len() ==> (#[trigger] targets[i]).id != target_id,
        },
{
    targets_are_found_by_id(targets, target_id);
}

/// The ensuring of a target fails exactly where it runs elsewhere or several times.
pub proof fn only_strays_and_duplicates_fail(step: EnsureStep, target_id: Seq<char>)
    ensures
        ensure_failure(step, target_id) is Some <==> step is RunsElsewhere || step is RunsTwice,
{
}

} // verus!
