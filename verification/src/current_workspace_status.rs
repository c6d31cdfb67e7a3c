//! Observed state of the configured launch targets of a worktree.
use vstd::prelude::*;
use vstd::string::*;

use crate::launch_target_config::{LaunchTarget, LaunchTargetId, PortboardConfig, TargetText};
use crate::launch_target_processes::{
    copy_runs, run_texts, DiscoverySnapshot, LaunchTargetProcess, RunText, snapshot_runs,
};
use crate::portboard_error::{error_chain, ErrorText, PortboardError};
use crate::process_endpoints::{
    copy_endpoints, endpoint_texts, find_process_endpoints, lists_owned_endpoints, root_endpoints,
    run_pids, some_root_owns, EndpointText, ProcessEndpoint, SocketSnapshot,
};
use crate::process_identity::ProcessIdentity;
use crate::runtime_metadata::{
    copy_named, load_launch_target_runtime_metadata, load_text, loaded_metadata,
    metadata_belongs_to_a_live_run, metadata_is_loaded_where_a_live_run_wrote_it, named_texts,
    writer_lives, LaunchTargetRuntimeMetadata, MetadataText, NamedText, RuntimeEndpoint,
    RuntimeFileObservation,
};
use crate::text::{copy_optional, copy_strings, optional_text, texts};

verus! {

/// Observed process state for one launch target in the current worktree.
#[derive(Debug, PartialEq, Eq)]
pub enum LaunchTargetRuntimeState {
    Stopped,
    Running { processes: Vec<LaunchTargetProcess> },
}

/// Display-ready status for one configured current-worktree launch target.
#[derive(Debug, PartialEq, Eq)]
pub struct CurrentLaunchTargetStatus {
    pub id: LaunchTargetId,
    pub label: String,
    pub argv: Vec<String>,
    pub endpoints: Vec<ProcessEndpoint>,
    pub named_endpoints: Vec<RuntimeEndpoint>,
    /// More than one run of the target is live.
    pub duplicate: bool,
    /// Why the runtime metadata of the target could not be used.
    pub metadata_error: Option<String>,
    pub state: LaunchTargetRuntimeState,
}

/// The statuses of all configured targets, and what is to be warned of.
#[derive(Debug, PartialEq, Eq)]
pub struct WorktreeLaunchTargetInspection {
    pub statuses: Vec<CurrentLaunchTargetStatus>,
    pub findings: Vec<String>,
}

/// What the state of a target is.
pub enum StateText {
    Stopped,
    Running(Seq<RunText>),
}

/// What the status of a target says.
pub struct StatusText {
    pub id: Seq<char>,
    pub label: Seq<char>,
    pub argv: Seq<Seq<char>>,
    pub endpoints: Seq<EndpointText>,
    pub named_endpoints: Seq<NamedText>,
    pub duplicate: bool,
    pub metadata_error: Option<Seq<char>>,
    pub state: StateText,
}

impl View for LaunchTargetRuntimeState {
    type V = StateText;

    open spec fn view(&self) -> StateText {
        match *self {
            LaunchTargetRuntimeState::Stopped => StateText::Stopped,
            LaunchTargetRuntimeState::Running { processes } => StateText::Running(
                run_texts(processes@),
            ),
        }
    }
}

impl View for CurrentLaunchTargetStatus {
    type V = StatusText;

    open spec fn view(&self) -> StatusText {
        StatusText {
            id: self.id@,
            label: self.label@,
            argv: texts(self.argv@),
            endpoints: endpoint_texts(self.endpoints@),
            named_endpoints: named_texts(self.named_endpoints@),
            duplicate: self.duplicate,
            metadata_error: optional_text(self.metadata_error),
            state: self.state@,
        }
    }
}

/// What every status of a list says.
pub open spec fn status_texts(statuses: Seq<CurrentLaunchTargetStatus>) -> Seq<StatusText> {
    Seq::new(statuses.len(), |i: int| statuses[i]@)
}

impl Clone for LaunchTargetRuntimeState {
    fn clone(&self) -> (result: Self)
        ensures
            result@ == self@,
    {
        match self {
            LaunchTargetRuntimeState::Stopped => LaunchTargetRuntimeState::Stopped,
            LaunchTargetRuntimeState::Running { processes } => LaunchTargetRuntimeState::Running {
                processes: copy_runs(processes),
            },
        }
    }
}

impl Clone for CurrentLaunchTargetStatus {
    fn clone(&self) -> (result: Self)
        ensures
            result@ == self@,
    {
        CurrentLaunchTargetStatus {
            id: self.id.clone(),
            label: self.label.clone(),
            argv: copy_strings(&self.argv),
            endpoints: copy_endpoints(&self.endpoints),
            named_endpoints: copy_named(&self.named_endpoints),
            duplicate: self.duplicate,
            metadata_error: copy_optional(&self.metadata_error),
            state: self.state.clone(),
        }
    }
}

/// What looking for the runtime metadata of one target gave, and which of the identities of
/// its runs were live then.
#[derive(Debug, PartialEq, Eq)]
pub struct MetadataObservation {
    pub file: RuntimeFileObservation,
    pub live: Vec<ProcessIdentity>,
}

/// The state of a target with some runs.
pub open spec fn state_of_runs(runs: Seq<RunText>) -> StateText {
    if runs.len() == 0 {
        StateText::Stopped
    } else {
        StateText::Running(runs)
    }
}

/// Whether a status says what was observed of a target.
pub open spec fn reports_target(
    status: StatusText,
    target: TargetText,
    runs: Seq<RunText>,
    sockets: SocketSnapshot,
    metadata: Result<Option<MetadataText>, ErrorText>,
) -> bool {
    &&& status.id == target.id
    &&& status.label == target.label
    &&& status.argv == target.argv
    &&& lists_owned_endpoints(status.endpoints, sockets, run_pids(runs))
    &&& status.named_endpoints == (match metadata {
        Ok(Some(found)) => found.endpoints,
        _ => Seq::empty(),
    })
    &&& status.duplicate == (runs.len() > 1)
    &&& status.metadata_error == (match metadata {
        Err(error) => Some(error_chain(error)),
        _ => None,
    })
    &&& status.state == state_of_runs(runs)
}

/// Inspects one launch target, given what looking for its metadata gave.
pub fn inspect_launch_target(
    target: &LaunchTarget,
    snapshot: &DiscoverySnapshot,
    metadata: Result<Option<LaunchTargetRuntimeMetadata>, PortboardError>,
) -> (result: CurrentLaunchTargetStatus)
    ensures
        reports_target(
            result@,
            target@,
            snapshot_runs(*snapshot, target@),
            snapshot.sockets,
            load_text(metadata),
        ),
{
    let processes = snapshot.target_processes(target);
    let endpoints = find_process_endpoints(&processes, &snapshot.sockets);
    let duplicate = processes.len() > 1;
    let mut named_endpoints: Vec<RuntimeEndpoint> = Vec::new();
    let mut metadata_error: Option<String> = None;
    proof {
        assert(named_texts(named_endpoints@) =~= Seq::<NamedText>::empty());
        assert(run_texts(processes@).len() == processes.len());
    }
    match metadata {
        Ok(Some(found)) => {
            named_endpoints = found.endpoints;
        },
        Ok(None) => {},
        Err(error) => {
            metadata_error = Some(error.chain());
        },
    }
    let state = if processes.len() == 0 {
        LaunchTargetRuntimeState::Stopped
    } else {
        LaunchTargetRuntimeState::Running { processes }
    };
    CurrentLaunchTargetStatus {
        id: target.id.clone(),
        label: target.label.clone(),
        argv: copy_strings(&target.argv),
        endpoints,
        named_endpoints,
        duplicate,
        metadata_error,
        state,
    }
}

/// What looking for the metadata of the target at an index gives.
pub open spec fn metadata_at(
    config: PortboardConfig,
    snapshot: DiscoverySnapshot,
    observed: Seq<MetadataObservation>,
    index: int,
) -> Result<Option<MetadataText>, ErrorText> {
    loaded_metadata(
        config.launch_targets@[index]@,
        snapshot_runs(snapshot, config.launch_targets@[index]@),
        observed[index].live@,
        observed[index].file,
    )
}

/// The warnings of the first `count` statuses: what stood against their metadata.
pub open spec fn status_findings(statuses: Seq<StatusText>, count: int) -> Seq<Seq<char>>
    decreases count,
{
    if count <= 0 {
        Seq::empty()
    } else {
        match statuses[count - 1].metadata_error {
            Some(error) => status_findings(statuses, count - 1).push(error),
            None => status_findings(statuses, count - 1),
        }
    }
}

/// Inspects every configured launch target without looking outside the current worktree. A
/// target whose metadata cannot be used is still reported, with a warning.
pub fn inspect_worktree_launch_targets(
    config: &PortboardConfig,
    snapshot: &DiscoverySnapshot,
    observed: Vec<MetadataObservation>,
) -> (result: WorktreeLaunchTargetInspection)
    requires
        observed@.len() == config.launch_targets@.len(),
    ensures
        result.statuses@.len() == config.launch_targets@.len(),
        forall|i: int|
            0 <= i < result.statuses@.len() ==> reports_target(
                (#[trigger] result.statuses@[i])@,
                config.launch_targets@[i]@,
                snapshot_runs(*snapshot, config.launch_targets@[i]@),
                snapshot.sockets,
                metadata_at(*config, *snapshot, observed@, i),
            ),
        texts(result.findings@) == status_findings(
            status_texts(result.statuses@),
            result.statuses@.len() as int,
        ),
{
    let mut statuses: Vec<CurrentLaunchTargetStatus> = Vec::new();
    let mut findings: Vec<String> = Vec::new();
    let ghost all = observed@;
    let mut waiting = observed;
    let mut turned: Vec<MetadataObservation> = Vec::new();
    while waiting.len() > 0
        invariant
            all == waiting@ + turned@.reverse(),
        decreases waiting.len(),
    {
        let ghost before = waiting@;
        let ghost earlier = turned@;
        match waiting.pop() {
            Some(item) => {
                turned.push(item);
                proof {
                    assert(before =~= waiting@.push(item));
                    assert(waiting@ + turned@.reverse() =~= before + earlier.reverse());
                }
            },
            None => {},
        }
    }
    let mut index: usize = 0;
    proof {
        assert(texts(findings@) =~= Seq::<Seq<char>>::empty());
        assert(turned@.reverse() =~= all);
        assert(turned@.len() == all.len());
        assert forall|i: int| 0 <= i < turned@.len() implies #[trigger] turned@[i] == all[all.len()
            - 1 - i] by {
            assert(turned@.reverse()[all.len() - 1 - i] == turned@[i]);
        }
    }
    while index < config.launch_targets.len()
        invariant
            index <= config.launch_targets.len() == all.len(),
            turned@.len() == all.len() - index,
            forall|i: int|
                0 <= i < turned@.len() ==> #[trigger] turned@[i] == all[all.len() - 1 - i],
            statuses@.len() == index,
            forall|i: int|
                0 <= i < statuses@.len() ==> reports_target(
                    (#[trigger] statuses@[i])@,
                    config.launch_targets@[i]@,
                    snapshot_runs(*snapshot, config.launch_targets@[i]@),
                    snapshot.sockets,
                    metadata_at(*config, *snapshot, all, i),
                ),
            texts(findings@) == status_findings(status_texts(statuses@), index as int),
        decreases config.launch_targets.len() - index,
    {
        let ghost left = turned@;
        match turned.pop() {
            Some(seen) => {
                proof {
                    assert(seen == left[left.len() - 1]);
                    assert(seen == all[index as int]);
                }
                let target = &config.launch_targets[index];
                let processes = snapshot.target_processes(target);
                let metadata = load_launch_target_runtime_metadata(
                    target,
                    &processes,
                    &seen.live,
                    seen.file,
                );
                let status = inspect_launch_target(target, snapshot, metadata);
                let ghost warned = texts(findings@);
                let ghost before = status_texts(statuses@);
                match &status.metadata_error {
                    Some(error) => {
                        findings.push(error.clone());
                        proof {
                            assert(texts(findings@) =~= warned.push(error@));
                        }
                    },
                    None => {},
                }
                let ghost added = status@;
                statuses.push(status);
                proof {
                    assert(status_texts(statuses@) =~= before.push(added));
                    lemma_findings_prefix(before, status_texts(statuses@), index as int);
                    assert forall|i: int| 0 <= i < turned@.len() implies #[trigger] turned@[i]
                        == all[all.len() - 1 - i] by {
                        assert(turned@[i] == left[i]);
                    }
                }
            },
            None => {},
        }
        index += 1;
    }
    WorktreeLaunchTargetInspection { statuses, findings }
}

proof fn lemma_findings_prefix(few: Seq<StatusText>, many: Seq<StatusText>, count: int)
    requires
        0 <= count <= few.len(),
        few.is_prefix_of(many),
    ensures
        status_findings(few, count) == status_findings(many, count),
    decreases count,
{
    if count > 0 {
        lemma_findings_prefix(few, many, count - 1);
        assert(few[count - 1] == many[count - 1]);
    }
}

/// A target is reported as stopped exactly where it has no run, and as running with all of its
/// runs otherwise; as a duplicate exactly where it has more than one; with the endpoints that its
/// metadata names where that could be used, and with the fault of the metadata where there is
/// one.
pub proof fn reports_tell_what_was_found(
    status: StatusText,
    target: TargetText,
    runs: Seq<RunText>,
    sockets: SocketSnapshot,
    metadata: Result<Option<MetadataText>, ErrorText>,
)
    requires
        reports_target(status, target, runs, sockets, metadata),
    ensures
        status.id == target.id && status.label == target.label && status.argv == target.argv,
        status.state is Stopped <==> runs.len() == 0,
        status.state matches StateText::Running(found) ==> found == runs,
        status.duplicate <==> runs.len() >= 2,
        status.metadata_error is Some <==> metadata is Err,
        metadata matches Ok(Some(found)) ==> status.named_endpoints == found.endpoints,
        metadata is Err || metadata->Ok_0 is None ==> status.named_endpoints.len() == 0,
        forall|endpoint: EndpointText| #[trigger]
            status.endpoints.contains(endpoint) <==> exists|root: u32|
                run_pids(runs).contains(root) && #[trigger] root_endpoints(
                    sockets,
                    run_pids(runs),
                    root,
                ).contains(endpoint),
{
    assert forall|endpoint: EndpointText| #[trigger]
        status.endpoints.contains(endpoint) <==> exists|root: u32|
            run_pids(runs).contains(root) && #[trigger] root_endpoints(
                sockets,
                run_pids(runs),
                root,
            ).contains(endpoint) by {
        assert(status.endpoints.contains(endpoint) <==> some_root_owns(
            sockets,
            run_pids(runs),
            endpoint,
        ));
    }
}

/// The findings are the faults of the metadata of all targets, and nothing else.
pub proof fn findings_are_metadata_faults(
    statuses: Seq<StatusText>,
    count: int,
    finding: Seq<char>,
)
    requires
        0 <= count <= statuses.len(),
    ensures
        status_findings(statuses, count).contains(finding) <==> exists|i: int|
            0 <= i < count && (#[trigger] statuses[i]).metadata_error == Some(finding),
    decreases count,
{
    if count > 0 {
        let last = count - 1;
        findings_are_metadata_faults(statuses, last, finding);
        let before = status_findings(statuses, last);
        let after = status_findings(statuses, count);
        if before.contains(finding) {
            let at = choose|at: int| 0 <= at < before.len() && before[at] == finding;
            assert(after[at] == finding);
        } else {
            if after.contains(finding) {
                let at = choose|at: int| 0 <= at < after.len() && after[at] == finding;
                if at < before.len() {
                    assert(before[at] == finding);
                }
                assert(statuses[last].metadata_error == Some(finding));
            }
            if statuses[last].metadata_error == Some(finding) {
                assert(after[before.len() as int] == finding);
            }
        }
    }
}

/// The metadata of a target is loaded for that target, for its own runs, from what was observed
/// of its own file.
pub proof fn targets_are_inspected_with_their_own_metadata(
    config: PortboardConfig,
    snapshot: DiscoverySnapshot,
    observed: Seq<MetadataObservation>,
    index: int,
    found: MetadataText,
)
    requires
        0 <= index < config.launch_targets@.len(),
        observed.len() == config.launch_targets@.len(),
        metadata_at(config, snapshot, observed, index) == Ok::<_, ErrorText>(Some(found)),
    ensures
        found.target_id == config.launch_targets@[index]@.id,
        writer_lives(
            snapshot_runs(snapshot, config.launch_targets@[index]@),
            observed[index].live@,
            found.pid,
        ),
{
    let target = config.launch_targets@[index]@;
    let runs = snapshot_runs(snapshot, target);
    metadata_is_loaded_where_a_live_run_wrote_it(
        target,
        runs,
        observed[index].live@,
        observed[index].file,
        found,
    );
    metadata_belongs_to_a_live_run(target, runs, observed[index].live@, observed[index].file);
}

/// The findings are listed in the order of the targets, one for each fault.
pub proof fn findings_are_listed_in_order(statuses: Seq<StatusText>, few: int, many: int)
    requires
        0 <= few <= many <= statuses.len(),
    ensures
        ({
            let before = status_findings(statuses, few);
            let after = status_findings(statuses, many);
            before.len() <= after.len() <= before.len() + (many - few) && after.take(
                before.len() as int,
            ) == before
        }),
    decreases many - few,
{
    let before = status_findings(statuses, few);
    let after = status_findings(statuses, many);
    if few < many {
        findings_are_listed_in_order(statuses, few, many - 1);
        let between = status_findings(statuses, many - 1);
        assert(after.take(before.len() as int) =~= between.take(before.len() as int));
    } else {
        assert(after.take(before.len() as int) =~= before);
    }
}

} // verus!
