//! An inventory of the live processes of a worktree.
use vstd::prelude::*;
use vstd::string::*;

use crate::launch_target_config::{target_texts, LaunchTarget, TargetText};
use crate::launch_target_processes::{
    run_texts, shows_worktree, snapshot_runs, worktree_pids, DiscoverySnapshot, ProcessObservation,
    RunText, WorktreeProcess,
};
use crate::process_endpoints::{
    attributes_listeners, copy_endpoints, endpoint_texts, endpoints_of_pid, group_of_pid,
    group_pids, owning_roots, root_endpoints, sorts_endpoints, EndpointGroup, EndpointText,
    ProcessEndpoint, SocketSnapshot,
};
use crate::text::{copy_strings, rows, texts};

verus! {

/// One running worktree process together with the launch targets that claim it.
#[derive(Debug, PartialEq, Eq)]
pub struct WorktreeProcessInventoryEntry {
    pub pid: u32,
    pub argv: Vec<String>,
    /// Ids of configured launch targets whose signature matches this process.
    /// Empty when no manifest claims the process or no manifest exists.
    pub target_ids: Vec<String>,
    /// Listening TCP endpoints owned by this process or its descendants.
    pub endpoints: Vec<ProcessEndpoint>,
}

/// What an entry of the inventory says.
pub struct InventoryText {
    pub pid: u32,
    pub argv: Seq<Seq<char>>,
    pub target_ids: Seq<Seq<char>>,
    pub endpoints: Seq<EndpointText>,
}

impl View for WorktreeProcessInventoryEntry {
    type V = InventoryText;

    open spec fn view(&self) -> InventoryText {
        InventoryText {
            pid: self.pid,
            argv: texts(self.argv@),
            target_ids: texts(self.target_ids@),
            endpoints: endpoint_texts(self.endpoints@),
        }
    }
}

/// What every entry of a list says.
pub open spec fn inventory_texts(
    entries: Seq<WorktreeProcessInventoryEntry>,
) -> Seq<InventoryText> {
    Seq::new(entries.len(), |i: int| entries[i]@)
}

impl Clone for WorktreeProcessInventoryEntry {
    fn clone(&self) -> (result: Self)
        ensures
            result@ == self@,
    {
        WorktreeProcessInventoryEntry {
            pid: self.pid,
            argv: copy_strings(&self.argv),
            target_ids: copy_strings(&self.target_ids),
            endpoints: copy_endpoints(&self.endpoints),
        }
    }
}

/// The identifier of a target, once for each of its first `count` runs that begins at a process.
pub open spec fn run_claims(
    pids: Seq<u32>,
    runs: Seq<RunText>,
    id: Seq<char>,
    index: int,
    count: int,
) -> Seq<Seq<char>>
    decreases count,
{
    if count <= 0 {
        Seq::empty()
    } else if crate::text::first_index(pids, runs[count - 1].pid, 0) == index {
        run_claims(pids, runs, id, index, count - 1).push(id)
    } else {
        run_claims(pids, runs, id, index, count - 1)
    }
}

/// The identifiers of the first `count` targets with a run that begins at a process.
pub open spec fn target_claims(
    snapshot: DiscoverySnapshot,
    targets: Seq<TargetText>,
    index: int,
    count: int,
) -> Seq<Seq<char>>
    decreases count,
{
    if count <= 0 {
        Seq::empty()
    } else {
        let runs = snapshot_runs(snapshot, targets[count - 1]);
        target_claims(snapshot, targets, index, count - 1) + run_claims(
            worktree_pids(snapshot.processes@),
            runs,
            targets[count - 1].id,
            index,
            runs.len() as int,
        )
    }
}

/// Whether an entry says what a snapshot shows of the process at an index.
pub open spec fn reports_process(
    entry: InventoryText,
    snapshot: DiscoverySnapshot,
    targets: Seq<TargetText>,
    index: int,
) -> bool {
    &&& entry.pid == snapshot.processes@[index].pid
    &&& entry.argv == texts(snapshot.processes@[index].argv@)
    &&& entry.target_ids == target_claims(snapshot, targets, index, targets.len() as int)
    &&& sorts_endpoints(
        entry.endpoints,
        root_endpoints(
            snapshot.sockets,
            worktree_pids(snapshot.processes@),
            snapshot.processes@[index].pid,
        ),
    )
}

fn position_of(processes: &Vec<WorktreeProcess>, pid: u32) -> (result: usize)
    ensures
        result == crate::text::first_index(worktree_pids(processes@), pid, 0),
        result <= processes.len(),
{
    let ghost pids = worktree_pids(processes@);
    let mut index: usize = 0;
    while index < processes.len()
        invariant
            index <= processes.len(),
            pids == worktree_pids(processes@),
            crate::text::first_index(pids, pid, 0) == crate::text::first_index(
                pids,
                pid,
                index as int,
            ),
        decreases processes.len() - index,
    {
        proof {
            assert(pids[index as int] == processes@[index as int].pid);
        }
        if processes[index].pid == pid {
            return index;
        }
        index += 1;
    }
    index
}

fn collect_claims(
    targets: &Vec<LaunchTarget>,
    snapshot: &DiscoverySnapshot,
    at: usize,
) -> (result: Vec<String>)
    ensures
        texts(result@) == target_claims(
            *snapshot,
            target_texts(targets@),
            at as int,
            targets@.len() as int,
        ),
{
    let ghost said = target_texts(targets@);
    let mut result: Vec<String> = Vec::new();
    let mut index: usize = 0;
    proof {
        assert(texts(result@) =~= Seq::<Seq<char>>::empty());
    }
    while index < targets.len()
        invariant
            index <= targets.len(),
            said == target_texts(targets@),
            texts(result@) == target_claims(*snapshot, said, at as int, index as int),
        decreases targets.len() - index,
    {
        let target = &targets[index];
        proof {
            assert(said[index as int] == target@);
        }
        let runs = snapshot.target_processes(target);
        let ghost shown = run_texts(runs@);
        let ghost pids = worktree_pids(snapshot.processes@);
        let ghost before = texts(result@);
        let mut turn: usize = 0;
        proof {
            assert(before + Seq::<Seq<char>>::empty() =~= before);
        }
        while turn < runs.len()
            invariant
                turn <= runs.len(),
                shown == run_texts(runs@),
                pids == worktree_pids(snapshot.processes@),
                texts(result@) == before + run_claims(
                    pids,
                    shown,
                    target@.id,
                    at as int,
                    turn as int,
                ),
            decreases runs.len() - turn,
        {
            proof {
                assert(shown[turn as int] == runs@[turn as int]@);
            }
            if position_of(&snapshot.processes, runs[turn].pid) == at {
                let ghost earlier = texts(result@);
                result.push(target.id.as_str().to_owned());
                proof {
                    assert(texts(result@) =~= earlier.push(target@.id));
                    assert(earlier.push(target@.id) =~= before + run_claims(
                        pids,
                        shown,
                        target@.id,
                        at as int,
                        turn as int,
                    ).push(target@.id));
                }
            }
            turn += 1;
        }
        index += 1;
    }
    result
}

/// A root's group holds its endpoints sorted; where there is none it owns nothing.
proof fn lemma_group_lookup(
    groups: Seq<EndpointGroup>,
    snapshot: SocketSnapshot,
    roots: Seq<u32>,
    pid: u32,
)
    requires
        attributes_listeners(groups, snapshot, roots),
        roots.contains(pid),
    ensures
        sorts_endpoints(endpoints_of_pid(groups, pid), root_endpoints(snapshot, roots, pid)),
{
    let i = choose|i: int| 0 <= i < roots.len() && roots[i] == pid;
    lemma_owning_root(snapshot, roots, roots.len() as int, pid);
    lemma_lookup(groups, pid);
    let owned = root_endpoints(snapshot, roots, pid);
    if owned.len() > 0 {
        lemma_owning_root_found(snapshot, roots, roots.len() as int, i);
        let at = choose|at: int|
            0 <= at < group_pids(groups).len() && group_pids(groups)[at] == pid;
        assert(groups[at].pid == pid);
    } else {
        assert(!group_pids(groups).contains(pid));
        assert forall|k: int| 0 <= k < groups.len() implies (#[trigger] groups[k]).pid != pid by {
            assert(group_pids(groups)[k] == groups[k].pid);
        }
        assert forall|endpoint: EndpointText| !(#[trigger] owned.contains(endpoint)) by {}
    }
}

proof fn lemma_lookup(groups: Seq<EndpointGroup>, pid: u32)
    ensures
        (exists|k: int|
            0 <= k < groups.len() && (#[trigger] groups[k]).pid == pid && endpoints_of_pid(
                groups,
                pid,
            ) == endpoint_texts(groups[k].endpoints@)) || ((forall|k: int|
            0 <= k < groups.len() ==> (#[trigger] groups[k]).pid != pid) && endpoints_of_pid(
            groups,
            pid,
        ) == Seq::<EndpointText>::empty()),
    decreases groups.len(),
{
    if groups.len() > 0 && groups[0].pid != pid {
        let rest = groups.drop_first();
        lemma_lookup(rest, pid);
        if exists|k: int| 0 <= k < rest.len() && (#[trigger] rest[k]).pid == pid
            && endpoints_of_pid(rest, pid) == endpoint_texts(rest[k].endpoints@) {
            let k = choose|k: int|
                0 <= k < rest.len() && (#[trigger] rest[k]).pid == pid && endpoints_of_pid(
                    rest,
                    pid,
                ) == endpoint_texts(rest[k].endpoints@);
            assert(groups[k + 1] == rest[k]);
        } else {
            assert forall|k: int| 0 <= k < groups.len() implies (#[trigger] groups[k]).pid
                != pid by {
                if k > 0 {
                    assert(rest[k - 1] == groups[k]);
                }
            }
        }
    }
}

proof fn lemma_owning_root(snapshot: SocketSnapshot, roots: Seq<u32>, count: int, pid: u32)
    requires
        0 <= count <= roots.len(),
    ensures
        owning_roots(snapshot, roots, count).contains(pid) ==> root_endpoints(
            snapshot,
            roots,
            pid,
        ).len() > 0,
    decreases count,
{
    if count > 0 {
        lemma_owning_root(snapshot, roots, count - 1, pid);
    }
}

proof fn lemma_owning_root_found(snapshot: SocketSnapshot, roots: Seq<u32>, count: int, at: int)
    requires
        0 <= at < count <= roots.len(),
        root_endpoints(snapshot, roots, roots[at]).len() > 0,
    ensures
        owning_roots(snapshot, roots, count).contains(roots[at]),
    decreases count,
{
    let before = owning_roots(snapshot, roots, count - 1);
    let all = owning_roots(snapshot, roots, count);
    if at < count - 1 {
        lemma_owning_root_found(snapshot, roots, count - 1, at);
        let k = choose|k: int| 0 <= k < before.len() && before[k] == roots[at];
        assert(all[k] == roots[at]);
    } else if roots.take(count - 1).contains(roots[at]) {
        let earlier = choose|earlier: int|
            0 <= earlier < count - 1 && #[trigger] roots.take(count - 1)[earlier] == roots[at];
        lemma_owning_root_found(snapshot, roots, count - 1, earlier);
        let k = choose|k: int| 0 <= k < before.len() && before[k] == roots[at];
        assert(all[k] == roots[at]);
    } else {
        assert(all[before.len() as int] == roots[at]);
    }
}

/// Inventories every live process that a snapshot shows and attributes configured
/// launch targets to them. Works without a manifest; unclaimed processes are
/// reported with an empty `target_ids` list.
pub fn inspect_worktree_processes_with_snapshot(
    targets: &Vec<LaunchTarget>,
    snapshot: &DiscoverySnapshot,
) -> (result: Vec<WorktreeProcessInventoryEntry>)
    ensures
        result@.len() == snapshot.processes@.len(),
        forall|i: int|
            0 <= i < result@.len() ==> reports_process(
                (#[trigger] result@[i])@,
                *snapshot,
                target_texts(targets@),
                i,
            ),
{
    // One grouped scan attributes every listener in the worktree to its owning
    // process so the inventory can show ports with or without a manifest.
    let groups = snapshot.endpoints_by_process();
    let mut result: Vec<WorktreeProcessInventoryEntry> = Vec::new();
    let mut index: usize = 0;
    while index < snapshot.processes.len()
        invariant
            index <= snapshot.processes.len(),
            attributes_listeners(
                groups@,
                snapshot.sockets,
                worktree_pids(snapshot.processes@),
            ),
            result@.len() == index,
            forall|i: int|
                0 <= i < result@.len() ==> reports_process(
                    (#[trigger] result@[i])@,
                    *snapshot,
                    target_texts(targets@),
                    i,
                ),
        decreases snapshot.processes.len() - index,
    {
        let process = &snapshot.processes[index];
        proof {
            let pids = worktree_pids(snapshot.processes@);
            assert(pids[index as int] == process.pid);
            lemma_group_lookup(groups@, snapshot.sockets, pids, process.pid);
        }
        let entry = WorktreeProcessInventoryEntry {
            pid: process.pid,
            argv: copy_strings(&process.argv),
            target_ids: collect_claims(targets, snapshot, index),
            endpoints: group_of_pid(&groups, process.pid),
        };
        result.push(entry);
        index += 1;
    }
    result
}

/// Whether an inventory reports the processes that some observations show.
pub open spec fn inventories(
    entries: Seq<WorktreeProcessInventoryEntry>,
    snapshot: DiscoverySnapshot,
    targets: Seq<TargetText>,
) -> bool {
    &&& entries.len() == snapshot.processes@.len()
    &&& forall|i: int|
        0 <= i < entries.len() ==> reports_process((#[trigger] entries[i])@, snapshot, targets, i)
}

/// Inventories every live process in the worktree, from what was read of all processes and of
/// the sockets.
pub fn inspect_worktree_processes(
    root: &[u8],
    others: &Vec<Vec<u8>>,
    own_pid: u32,
    seen: &Vec<ProcessObservation>,
    sockets: SocketSnapshot,
    targets: &Vec<LaunchTarget>,
) -> (result: Vec<WorktreeProcessInventoryEntry>)
    ensures
        exists|snapshot: DiscoverySnapshot|
            snapshot.sockets == sockets && shows_worktree(
                snapshot.processes@,
                root@,
                rows(others@),
                own_pid,
                seen@,
            ) && #[trigger] inventories(result@, snapshot, target_texts(targets@)),
{
    let snapshot = DiscoverySnapshot::capture(root, others, own_pid, seen, sockets);
    let result = inspect_worktree_processes_with_snapshot(targets, &snapshot);
    proof {
        assert(inventories(result@, snapshot, target_texts(targets@)));
    }
    result
}

/// Without targets every process is reported as unclaimed.
pub proof fn nothing_is_claimed_without_targets(snapshot: DiscoverySnapshot, index: int)
    ensures
        target_claims(snapshot, Seq::empty(), index, 0) == Seq::<Seq<char>>::empty(),
{
}

/// A process is claimed by a target exactly where a run of that target begins with it, and it is
/// the first of the listed processes with its pid.
pub proof fn runs_claim_their_process(
    snapshot: DiscoverySnapshot,
    targets: Seq<TargetText>,
    index: int,
    count: int,
    id: Seq<char>,
)
    requires
        0 <= count <= targets.len(),
        0 <= index < snapshot.processes@.len(),
    ensures
        target_claims(snapshot, targets, index, count).contains(id) <==> (forall|j: int|
            0 <= j < index ==> (#[trigger] snapshot.processes@[j]).pid
                != snapshot.processes@[index].pid) && exists|t: int|
            0 <= t < count && (#[trigger] targets[t]).id == id && some_run_has_pid(
                snapshot_runs(snapshot, targets[t]),
                snapshot.processes@[index].pid,
            ),
    decreases count,
{
    if count > 0 {
        let last = count - 1;
        runs_claim_their_process(snapshot, targets, index, last, id);
        let pids = worktree_pids(snapshot.processes@);
        let runs = snapshot_runs(snapshot, targets[last]);
        let before = target_claims(snapshot, targets, index, last);
        let added = run_claims(pids, runs, targets[last].id, index, runs.len() as int);
        let after = target_claims(snapshot, targets, index, count);
        lemma_run_claims(pids, runs, targets[last].id, index, runs.len() as int, id);
        assert(after == before + added);
        if before.contains(id) {
            let at = choose|at: int| 0 <= at < before.len() && before[at] == id;
            assert(after[at] == id);
        }
        if added.contains(id) {
            let at = choose|at: int| 0 <= at < added.len() && added[at] == id;
            assert(after[before.len() + at] == id);
        }
        if after.contains(id) {
            let at = choose|at: int| 0 <= at < after.len() && after[at] == id;
            if at < before.len() {
                assert(before[at] == id);
            } else {
                assert(added[at - before.len()] == id);
            }
        }
        assert(after.contains(id) <==> before.contains(id) || added.contains(id));
        assert((forall|j: int| 0 <= j < index ==> #[trigger] pids[j] != pids[index]) <==> (forall|
            j: int,
        |
            0 <= j < index ==> (#[trigger] snapshot.processes@[j]).pid
                != snapshot.processes@[index].pid)) by {
            assert forall|j: int| 0 <= j < index implies #[trigger] pids[j]
                == snapshot.processes@[j].pid by {}
            if forall|j: int| 0 <= j < index ==> #[trigger] pids[j] != pids[index] {
                assert forall|j: int| 0 <= j < index implies (
                #[trigger] snapshot.processes@[j]).pid != snapshot.processes@[index].pid by {
                    assert(pids[j] != pids[index]);
                }
            }
        }
        if some_run_has_pid(runs, snapshot.processes@[index].pid) && targets[last].id == id {
            assert(targets[last].id == id);
        }
    }
}

/// Whether some run begins with a process of a pid.
pub open spec fn some_run_has_pid(runs: Seq<RunText>, pid: u32) -> bool {
    exists|r: int| 0 <= r < runs.len() && (#[trigger] runs[r]).pid == pid
}

proof fn lemma_run_claims(
    pids: Seq<u32>,
    runs: Seq<RunText>,
    id: Seq<char>,
    index: int,
    count: int,
    other: Seq<char>,
)
    requires
        0 <= count <= runs.len(),
        0 <= index < pids.len(),
    ensures
        run_claims(pids, runs, id, index, count).contains(other) <==> other == id && (forall|j: int|
            0 <= j < index ==> #[trigger] pids[j] != pids[index]) && exists|r: int|
            0 <= r < count && (#[trigger] runs[r]).pid == pids[index],
    decreases count,
{
    if count > 0 {
        let last = count - 1;
        lemma_run_claims(pids, runs, id, index, last, other);
        let before = run_claims(pids, runs, id, index, last);
        let after = run_claims(pids, runs, id, index, count);
        crate::text::lemma_first_index_bounds(pids, runs[last].pid, 0);
        let at_pid = crate::text::first_index(pids, runs[last].pid, 0);
        if at_pid == index {
            assert(pids[index] == runs[last].pid);
            assert(after[before.len() as int] == id);
            if before.contains(other) {
                let at = choose|at: int| 0 <= at < before.len() && before[at] == other;
                assert(after[at] == other);
            }
            if after.contains(other) && !before.contains(other) {
                let at = choose|at: int| 0 <= at < after.len() && after[at] == other;
                if at < before.len() {
                    assert(before[at] == other);
                }
            }
            assert(runs[last].pid == pids[index]);
        } else if runs[last].pid == pids[index] {
            assert(at_pid < index);
            assert(pids[at_pid] == pids[index]);
        }
    }
}

/// The inventory lists every process of the worktree once, in order, with its command line and
/// exactly the endpoints that it owns.
pub proof fn every_process_is_listed(
    entries: Seq<WorktreeProcessInventoryEntry>,
    snapshot: DiscoverySnapshot,
    targets: Seq<TargetText>,
    index: int,
    endpoint: EndpointText,
)
    requires
        inventories(entries, snapshot, targets),
        0 <= index < snapshot.processes@.len(),
    ensures
        entries.len() == snapshot.processes@.len(),
        entries[index].pid == snapshot.processes@[index].pid,
        texts(entries[index].argv@) == texts(snapshot.processes@[index].argv@),
        endpoint_texts(entries[index].endpoints@).contains(endpoint) <==> root_endpoints(
            snapshot.sockets,
            worktree_pids(snapshot.processes@),
            snapshot.processes@[index].pid,
        ).contains(endpoint),
        texts(entries[index].target_ids@) == target_claims(
            snapshot,
            targets,
            index,
            targets.len() as int,
        ),
{
    assert(reports_process(entries[index]@, snapshot, targets, index));
}

/// The targets that claim a process are listed in the order of the manifest.
pub proof fn claims_are_listed_in_order(
    snapshot: DiscoverySnapshot,
    targets: Seq<TargetText>,
    index: int,
    few: int,
    many: int,
)
    requires
        0 <= few <= many <= targets.len(),
    ensures
        ({
            let before = target_claims(snapshot, targets, index, few);
            let after = target_claims(snapshot, targets, index, many);
            before.len() <= after.len() && after.take(before.len() as int) == before
        }),
    decreases many - few,
{
    let before = target_claims(snapshot, targets, index, few);
    let after = target_claims(snapshot, targets, index, many);
    if few < many {
        claims_are_listed_in_order(snapshot, targets, index, few, many - 1);
        let between = target_claims(snapshot, targets, index, many - 1);
        assert(after.take(before.len() as int) =~= between.take(before.len() as int));
    } else {
        assert(after.take(before.len() as int) =~= before);
    }
}

} // verus!
