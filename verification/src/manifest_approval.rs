//! Approval of the commands that a repository provides.
use vstd::prelude::*;
use vstd::string::*;

use crate::launch_target_config::{LaunchTarget, PortboardConfig};
use crate::numbers::{decimal, push_decimal};
use crate::ordered::{ascending, has_key, keys, sorted_stably};
use crate::path_text::same_bytes;
use crate::portboard_error::{failure, refusal, ErrorText, PortboardError};
use crate::text::{
    ascii_lower_text, ascii_lowered_text, copy_strings, holds_text, is_blank, is_white_space,
    same_but_for_ascii_case, same_text, texts, trim, trimmed, trimming_leaves_the_text,
};

verus! {

/// The version of the approval store that is understood.
pub const APPROVAL_STORE_VERSION: u32 = 1;

/// The commands that were approved of one manifest in one worktree.
#[derive(Debug, PartialEq, Eq)]
pub struct RepositoryApproval {
    pub worktree_root: Vec<u8>,
    pub manifest: String,
    pub target_ids: Vec<String>,
}

/// All approvals.
#[derive(Debug, PartialEq, Eq)]
pub struct ApprovalStore {
    pub version: u32,
    pub repositories: Vec<RepositoryApproval>,
}

/// What was approved of one manifest in one worktree.
pub struct ApprovalText {
    pub worktree_root: Seq<u8>,
    pub manifest: Seq<char>,
    pub target_ids: Seq<Seq<char>>,
}

impl View for RepositoryApproval {
    type V = ApprovalText;

    open spec fn view(&self) -> ApprovalText {
        ApprovalText {
            worktree_root: self.worktree_root@,
            manifest: self.manifest@,
            target_ids: texts(self.target_ids@),
        }
    }
}

/// What was approved.
pub open spec fn approval_texts(repositories: Seq<RepositoryApproval>) -> Seq<ApprovalText> {
    Seq::new(repositories.len(), |i: int| repositories[i]@)
}

impl ApprovalStore {
    /// Nothing was approved.
    pub fn new() -> (result: Self)
        ensures
            result.version == APPROVAL_STORE_VERSION,
            approval_texts(result.repositories@) == Seq::<ApprovalText>::empty(),
    {
        let result = ApprovalStore { version: APPROVAL_STORE_VERSION, repositories: Vec::new() };
        proof {
            assert(approval_texts(result.repositories@) =~= Seq::<ApprovalText>::empty());
        }
        result
    }
}

/// Why a store is not understood.
pub open spec fn store_refusal(version: u32) -> Option<ErrorText> {
    if version == APPROVAL_STORE_VERSION {
        None
    } else {
        Some(
            failure(
                "Portboard approval store version "@ + decimal(version as nat)
                    + " is unsupported"@,
            ),
        )
    }
}

/// Accepts only a store of the version that is understood.
pub fn check_store(store: &ApprovalStore) -> (result: Result<(), PortboardError>)
    ensures
        refusal(result) == store_refusal(store.version),
{
    if store.version == APPROVAL_STORE_VERSION {
        return Ok(());
    }
    let mut message = "Portboard approval store version ".to_owned();
    push_decimal(&mut message, store.version as u64);
    message.append(" is unsupported");
    Err(PortboardError::new(message))
}

/// Whether an entry approves a target of a manifest in a worktree.
pub open spec fn approves(
    entry: ApprovalText,
    worktree_root: Seq<u8>,
    manifest: Seq<char>,
    target_id: Seq<char>,
) -> bool {
    entry.worktree_root == worktree_root && entry.manifest == manifest
        && entry.target_ids.contains(target_id)
}

/// Whether a target of a manifest was approved in a worktree.
pub open spec fn is_approved(
    entries: Seq<ApprovalText>,
    worktree_root: Seq<u8>,
    manifest: Seq<char>,
    target_id: Seq<char>,
) -> bool {
    exists|i: int|
        0 <= i < entries.len() && approves(
            #[trigger] entries[i],
            worktree_root,
            manifest,
            target_id,
        )
}

/// Returns whether the exact manifest and target were approved.
pub fn is_approved_at(
    store: &ApprovalStore,
    worktree_root: &[u8],
    manifest: &str,
    target_id: &str,
) -> (result: bool)
    ensures
        result == is_approved(
            approval_texts(store.repositories@),
            worktree_root@,
            manifest@,
            target_id@,
        ),
{
    let ghost entries = approval_texts(store.repositories@);
    let mut index: usize = 0;
    while index < store.repositories.len()
        invariant
            index <= store.repositories.len(),
            entries == approval_texts(store.repositories@),
            forall|i: int|
                0 <= i < index ==> !approves(
                    #[trigger] entries[i],
                    worktree_root@,
                    manifest@,
                    target_id@,
                ),
        decreases store.repositories.len() - index,
    {
        let entry = &store.repositories[index];
        proof {
            assert(entries[index as int] == entry@);
        }
        if same_bytes(entry.worktree_root.as_slice(), worktree_root) && same_text(
            entry.manifest.as_str(),
            manifest,
        ) && holds_text(&entry.target_ids, target_id) {
            return true;
        }
        index += 1;
    }
    false
}

/// Whether a list of texts is another one, sorted.
pub open spec fn sorts_texts(sorted: Seq<String>, list: Seq<String>) -> bool {
    &&& ascending::<String>(keys(sorted))
    &&& forall|text: Seq<char>|
        #![trigger sorted.filter(has_key::<String>(text))]
        sorted.filter(has_key::<String>(text)) == list.filter(has_key::<String>(text))
    &&& sorted.to_multiset() == list.to_multiset()
}

/// Whether a list of identifiers is another one, sorted.
pub open spec fn sorts_ids(sorted: Seq<String>, list: Seq<Seq<char>>) -> bool {
    exists|unsorted: Seq<String>|
        texts(unsorted) == list && #[trigger] sorts_texts(sorted, unsorted)
}

/// Where the first entry of a worktree stands, from an index on.
pub open spec fn entry_index(entries: Seq<ApprovalText>, worktree_root: Seq<u8>, from: int) -> int
    decreases entries.len() - from,
{
    if from < 0 || from >= entries.len() {
        entries.len() as int
    } else if entries[from].worktree_root == worktree_root {
        from
    } else {
        entry_index(entries, worktree_root, from + 1)
    }
}

/// Whether the identifiers of an entry are those of an earlier one with one more: another
/// manifest starts anew, and a new identifier is sorted in.
pub open spec fn adds_target(
    before: ApprovalText,
    after: RepositoryApproval,
    manifest: Seq<char>,
    target_id: Seq<char>,
) -> bool {
    if before.manifest != manifest {
        after@.target_ids == seq![target_id]
    } else if before.target_ids.contains(target_id) {
        after@.target_ids == before.target_ids
    } else {
        sorts_ids(after.target_ids@, before.target_ids.push(target_id))
    }
}

/// Whether a list of entries is another one with one approval more.
pub open spec fn records_approval(
    before: Seq<ApprovalText>,
    after: Seq<RepositoryApproval>,
    worktree_root: Seq<u8>,
    manifest: Seq<char>,
    target_id: Seq<char>,
) -> bool {
    let at = entry_index(before, worktree_root, 0);
    if at == before.len() {
        approval_texts(after) == before.push(
            ApprovalText { worktree_root, manifest, target_ids: seq![target_id] },
        )
    } else {
        &&& after.len() == before.len()
        &&& forall|i: int|
            0 <= i < before.len() && i != at ==> (#[trigger] after[i])@ == before[i]
        &&& after[at]@.worktree_root == worktree_root
        &&& after[at]@.manifest == manifest
        &&& adds_target(before[at], after[at], manifest, target_id)
    }
}

fn find_entry(entries: &Vec<RepositoryApproval>, worktree_root: &[u8]) -> (result: usize)
    ensures
        result == entry_index(approval_texts(entries@), worktree_root@, 0),
        result <= entries.len(),
{
    let ghost shown = approval_texts(entries@);
    let mut index: usize = 0;
    while index < entries.len()
        invariant
            index <= entries.len(),
            shown == approval_texts(entries@),
            entry_index(shown, worktree_root@, 0) == entry_index(
                shown,
                worktree_root@,
                index as int,
            ),
        decreases entries.len() - index,
    {
        proof {
            assert(shown[index as int] == entries@[index as int]@);
        }
        if same_bytes(entries[index].worktree_root.as_slice(), worktree_root) {
            return index;
        }
        index += 1;
    }
    index
}

fn copy_bytes(bytes: &[u8]) -> (result: Vec<u8>)
    ensures
        result@ == bytes@,
{
    let copy = crate::text::copy_range(bytes, 0, bytes.len());
    proof {
        assert(copy@ =~= bytes@);
    }
    copy
}

fn one_text(text: &str) -> (result: Vec<String>)
    ensures
        texts(result@) == seq![text@],
{
    let mut result: Vec<String> = Vec::new();
    result.push(text.to_owned());
    proof {
        assert(texts(result@) =~= seq![text@]);
    }
    result
}

/// Records an approval. Another manifest revokes what was approved of the one before it.
pub fn record_approval_at(
    store: &mut ApprovalStore,
    worktree_root: &[u8],
    manifest: &str,
    target_id: &str,
)
    ensures
        final(store).version == APPROVAL_STORE_VERSION,
        records_approval(
            approval_texts(old(store).repositories@),
            final(store).repositories@,
            worktree_root@,
            manifest@,
            target_id@,
        ),
{
    let ghost before = approval_texts(store.repositories@);
    store.version = APPROVAL_STORE_VERSION;
    let at: usize = find_entry(&store.repositories, worktree_root);
    if at == store.repositories.len() {
        let added = RepositoryApproval {
            worktree_root: copy_bytes(worktree_root),
            manifest: manifest.to_owned(),
            target_ids: one_text(target_id),
        };
        let ghost shown = added@;
        store.repositories.push(added);
        proof {
            assert(approval_texts(store.repositories@) =~= before.push(shown));
        }
        return;
    }
    proof {
        lemma_entry_root(before, worktree_root@, 0);
        assert(before[at as int] == store.repositories@[at as int]@);
    }
    let target_ids = if !same_text(store.repositories[at].manifest.as_str(), manifest) {
        one_text(target_id)
    } else if holds_text(&store.repositories[at].target_ids, target_id) {
        copy_strings(&store.repositories[at].target_ids)
    } else {
        let mut more = copy_strings(&store.repositories[at].target_ids);
        let ghost fewer = texts(more@);
        more.push(target_id.to_owned());
        proof {
            assert(texts(more@) =~= fewer.push(target_id@));
        }
        let ghost unsorted = more@;
        let sorted = sorted_stably(more);
        proof {
            assert(sorts_texts(sorted@, unsorted));
            assert(sorts_ids(sorted@, fewer.push(target_id@)));
        }
        sorted
    };
    let entry = RepositoryApproval {
        worktree_root: copy_bytes(worktree_root),
        manifest: manifest.to_owned(),
        target_ids,
    };
    let ghost changed = entry;
    let ghost earlier = store.repositories@;
    store.repositories.set(at, entry);
    proof {
        assert(store.repositories@ == earlier.update(at as int, changed));
        assert forall|i: int| 0 <= i < before.len() && i != at implies (
        #[trigger] store.repositories@[i])@ == before[i] by {
            assert(store.repositories@[i] == earlier[i]);
        }
    }
}

proof fn lemma_entry_root(entries: Seq<ApprovalText>, worktree_root: Seq<u8>, from: int)
    requires
        0 <= from <= entries.len(),
    ensures
        from <= entry_index(entries, worktree_root, from) <= entries.len(),
        entry_index(entries, worktree_root, from) < entries.len() ==> entries[entry_index(
            entries,
            worktree_root,
            from,
        )].worktree_root == worktree_root,
        forall|i: int|
            from <= i < entry_index(entries, worktree_root, from) ==> (
            #[trigger] entries[i]).worktree_root != worktree_root,
    decreases entries.len() - from,
{
    if from < entries.len() && entries[from].worktree_root != worktree_root {
        lemma_entry_root(entries, worktree_root, from + 1);
    }
}

/// Sorting keeps what a list holds.
proof fn lemma_sorted_ids(sorted: Seq<String>, list: Seq<Seq<char>>, text: Seq<char>)
    requires
        sorts_ids(sorted, list),
    ensures
        texts(sorted).contains(text) <==> list.contains(text),
{
    let unsorted = choose|unsorted: Seq<String>|
        texts(unsorted) == list && #[trigger] sorts_texts(sorted, unsorted);
    broadcast use vstd::seq_lib::group_to_multiset_ensures;

    if texts(sorted).contains(text) {
        let i = choose|i: int| 0 <= i < sorted.len() && texts(sorted)[i] == text;
        assert(sorted.contains(sorted[i]));
        assert(sorted.to_multiset().count(sorted[i]) > 0);
        assert(unsorted.contains(sorted[i]));
        let j = choose|j: int| 0 <= j < unsorted.len() && unsorted[j] == sorted[i];
        assert(texts(unsorted)[j] == text);
    }
    if list.contains(text) {
        let j = choose|j: int| 0 <= j < unsorted.len() && texts(unsorted)[j] == text;
        assert(unsorted.contains(unsorted[j]));
        assert(unsorted.to_multiset().count(unsorted[j]) > 0);
        assert(sorted.contains(unsorted[j]));
        let i = choose|i: int| 0 <= i < sorted.len() && sorted[i] == unsorted[j];
        assert(texts(sorted)[i] == text);
    }
}

/// What an entry approves once a target was added.
proof fn lemma_added_target(
    before: ApprovalText,
    after: RepositoryApproval,
    manifest: Seq<char>,
    target_id: Seq<char>,
    text: Seq<char>,
)
    requires
        adds_target(before, after, manifest, target_id),
    ensures
        after@.target_ids.contains(text) <==> text == target_id || (before.manifest == manifest
            && before.target_ids.contains(text)),
{
    if before.manifest != manifest {
        assert(after@.target_ids[0] == target_id);
    } else if !before.target_ids.contains(target_id) {
        lemma_sorted_ids(after.target_ids@, before.target_ids.push(target_id), text);
        let more = before.target_ids.push(target_id);
        if text == target_id {
            assert(more[before.target_ids.len() as int] == text);
        }
        if before.target_ids.contains(text) {
            let i = choose|i: int|
                0 <= i < before.target_ids.len() && before.target_ids[i] == text;
            assert(more[i] == text);
        }
    }
}

/// Whether each worktree has at most one entry.
pub open spec fn has_distinct_roots(entries: Seq<ApprovalText>) -> bool {
    forall|i: int, j: int|
        0 <= i < j < entries.len() ==> (#[trigger] entries[i]).worktree_root != (
        #[trigger] entries[j]).worktree_root
}

/// An approval counts once it was recorded.
pub proof fn recorded_approvals_count(
    before: Seq<ApprovalText>,
    after: Seq<RepositoryApproval>,
    worktree_root: Seq<u8>,
    manifest: Seq<char>,
    target_id: Seq<char>,
)
    requires
        records_approval(before, after, worktree_root, manifest, target_id),
    ensures
        is_approved(approval_texts(after), worktree_root, manifest, target_id),
{
    let at = entry_index(before, worktree_root, 0);
    let entries = approval_texts(after);
    lemma_entry_root(before, worktree_root, 0);
    if at == before.len() {
        assert(entries[at].target_ids[0] == target_id);
        assert(approves(entries[at], worktree_root, manifest, target_id));
    } else {
        lemma_added_target(before[at], after[at], manifest, target_id, target_id);
        assert(approves(entries[at], worktree_root, manifest, target_id));
    }
}

/// Recording an approval approves nothing else: what counts afterwards is the approval that was
/// recorded or counted before.
pub proof fn approvals_are_bound_to_manifest_and_target(
    before: Seq<ApprovalText>,
    after: Seq<RepositoryApproval>,
    worktree_root: Seq<u8>,
    manifest: Seq<char>,
    target_id: Seq<char>,
    other_root: Seq<u8>,
    other_manifest: Seq<char>,
    other_id: Seq<char>,
)
    requires
        records_approval(before, after, worktree_root, manifest, target_id),
        is_approved(approval_texts(after), other_root, other_manifest, other_id),
    ensures
        (other_root == worktree_root && other_manifest == manifest && other_id == target_id)
            || is_approved(before, other_root, other_manifest, other_id),
{
    let at = entry_index(before, worktree_root, 0);
    let entries = approval_texts(after);
    lemma_entry_root(before, worktree_root, 0);
    let i = choose|i: int|
        0 <= i < entries.len() && approves(
            #[trigger] entries[i],
            other_root,
            other_manifest,
            other_id,
        );
    if at == before.len() {
        if i < before.len() {
            assert(entries[i] == before[i]);
            assert(approves(before[i], other_root, other_manifest, other_id));
        }
    } else if i == at {
        lemma_added_target(before[at], after[at], manifest, target_id, other_id);
        if other_id != target_id {
            assert(approves(before[at], other_root, other_manifest, other_id));
        }
    } else {
        assert(after[i]@ == before[i]);
        assert(approves(before[i], other_root, other_manifest, other_id));
    }
}

/// Approving a target of a changed manifest revokes every approval of the manifest before it in
/// that worktree, and of its other targets.
pub proof fn changed_manifests_revoke_other_targets(
    before: Seq<ApprovalText>,
    after: Seq<RepositoryApproval>,
    worktree_root: Seq<u8>,
    manifest: Seq<char>,
    target_id: Seq<char>,
    other_manifest: Seq<char>,
    other_id: Seq<char>,
)
    requires
        records_approval(before, after, worktree_root, manifest, target_id),
        has_distinct_roots(before),
        is_approved(approval_texts(after), worktree_root, other_manifest, other_id),
    ensures
        other_manifest == manifest,
        other_id == target_id || is_approved(before, worktree_root, manifest, other_id),
{
    let at = entry_index(before, worktree_root, 0);
    let entries = approval_texts(after);
    lemma_entry_root(before, worktree_root, 0);
    let i = choose|i: int|
        0 <= i < entries.len() && approves(
            #[trigger] entries[i],
            worktree_root,
            other_manifest,
            other_id,
        );
    if at == before.len() {
        if i < before.len() {
            assert(entries[i] == before[i]);
        }
    } else {
        if i != at {
            assert(after[i]@ == before[i]);
            let low = if i < at { i } else { at };
            let high = if i < at { at } else { i };
            assert(before[low].worktree_root != before[high].worktree_root);
        }
        lemma_added_target(before[at], after[at], manifest, target_id, other_id);
        if other_id != target_id {
            assert(approves(before[at], worktree_root, manifest, other_id));
        }
    }
}

/// Recording an approval gives no worktree a second entry, and leaves other worktrees alone.
pub proof fn worktrees_stay_apart(
    before: Seq<ApprovalText>,
    after: Seq<RepositoryApproval>,
    worktree_root: Seq<u8>,
    manifest: Seq<char>,
    target_id: Seq<char>,
)
    requires
        records_approval(before, after, worktree_root, manifest, target_id),
        has_distinct_roots(before),
    ensures
        has_distinct_roots(approval_texts(after)),
        forall|i: int|
            0 <= i < before.len() && before[i].worktree_root != worktree_root ==> (
            #[trigger] after[i])@ == before[i],
{
    let at = entry_index(before, worktree_root, 0);
    let entries = approval_texts(after);
    lemma_entry_root(before, worktree_root, 0);
    if at == before.len() {
        assert(after.len() == before.len() + 1) by {
            assert(entries.len() == after.len());
        }
        assert forall|i: int|
            0 <= i < before.len() && before[i].worktree_root != worktree_root implies (
        #[trigger] after[i])@ == before[i] by {
            assert(entries[i] == before[i]);
        }
    }
    assert forall|i: int, j: int| 0 <= i < j < entries.len() implies (
    #[trigger] entries[i]).worktree_root != (#[trigger] entries[j]).worktree_root by {
        if at == before.len() {
            assert(entries[i] == before[i]);
            if j < before.len() {
                assert(entries[j] == before[j]);
            }
        } else {
            assert(entries[i].worktree_root == before[i].worktree_root);
            assert(entries[j].worktree_root == before[j].worktree_root);
        }
    }
}

/// Why a command is not prepared: its manifest says something else by now.
pub open spec fn manifest_refusal(
    current: PortboardConfig,
    loaded: PortboardConfig,
) -> Option<ErrorText> {
    if current@ == loaded@ {
        None
    } else {
        Some(
            failure(
                "Portboard manifest changed while the command was being prepared; retry the operation"@,
            ),
        )
    }
}

/// Requires that a manifest which was read again says what it said before, and hands out its
/// exact text.
pub fn current_manifest_snapshot(
    manifest: String,
    current: &PortboardConfig,
    loaded: &PortboardConfig,
) -> (result: Result<String, PortboardError>)
    ensures
        match (result, manifest_refusal(*current, *loaded)) {
            (Ok(snapshot), None) => snapshot@ == manifest@,
            (Err(error), Some(expected)) => error@ == expected,
            _ => false,
        },
{
    if current.says_the_same(loaded) {
        Ok(manifest)
    } else {
        Err(
            PortboardError::new(
                "Portboard manifest changed while the command was being prepared; retry the operation".to_owned(),
            ),
        )
    }
}

/// Returns whether the exact current manifest and target were approved.
pub fn launch_target_is_approved(
    store: &ApprovalStore,
    worktree_root: &[u8],
    manifest: &str,
    target: &LaunchTarget,
) -> (result: bool)
    ensures
        result == is_approved(
            approval_texts(store.repositories@),
            worktree_root@,
            manifest@,
            target@.id,
        ),
{
    is_approved_at(store, worktree_root, manifest, target.id.as_str())
}

/// Why an approval is not recorded: the manifest, read again, no longer says what was loaded, or
/// is no longer the text that was shown.
pub open spec fn approval_refusal(
    manifest: Seq<char>,
    current: PortboardConfig,
    loaded: PortboardConfig,
    expected_manifest: Seq<char>,
) -> Option<ErrorText> {
    if manifest_refusal(current, loaded) is Some {
        manifest_refusal(current, loaded)
    } else if manifest != expected_manifest {
        Some(
            failure(
                "Portboard manifest changed after it was displayed; refresh and review it again"@,
            ),
        )
    } else {
        None
    }
}

/// Records an approval after a trusted UI has shown the command and received a
/// positive user action, unless the manifest that was read again, which says `current`, no
/// longer says what was loaded or is no longer the one that was shown.
pub fn approve_launch_target(
    store: &mut ApprovalStore,
    worktree_root: &[u8],
    manifest: String,
    current: &PortboardConfig,
    loaded: &PortboardConfig,
    target: &LaunchTarget,
    expected_manifest: &str,
) -> (result: Result<(), PortboardError>)
    ensures
        refusal(result) == approval_refusal(manifest@, *current, *loaded, expected_manifest@),
        match result {
            Ok(_) => records_approval(
                approval_texts(old(store).repositories@),
                final(store).repositories@,
                worktree_root@,
                manifest@,
                target@.id,
            ),
            Err(_) => *final(store) == *old(store),
        },
{
    let snapshot = match current_manifest_snapshot(manifest, current, loaded) {
        Ok(snapshot) => snapshot,
        Err(error) => {
            return Err(error);
        },
    };
    if !same_text(snapshot.as_str(), expected_manifest) {
        return Err(
            PortboardError::new(
                "Portboard manifest changed after it was displayed; refresh and review it again".to_owned(),
            ),
        );
    }
    record_approval_at(store, worktree_root, snapshot.as_str(), target.id.as_str());
    Ok(())
}

/// What is done about the approval of a command.
#[derive(Clone, Copy, Debug, PartialEq, Eq, Structural)]
pub enum ApprovalStep {
    /// It was approved before.
    Proceed,
    /// It is shown, and approved by the environment.
    Record,
    /// It is shown, and the user is asked.
    Ask,
    /// It is shown, and nobody can be asked.
    Refuse,
}

/// What is done about the approval of a command.
pub open spec fn approval_step(
    approved: bool,
    environment: Option<Seq<char>>,
    is_terminal: bool,
) -> ApprovalStep {
    if approved {
        ApprovalStep::Proceed
    } else if environment == Some("1"@) {
        ApprovalStep::Record
    } else if is_terminal {
        ApprovalStep::Ask
    } else {
        ApprovalStep::Refuse
    }
}

/// Requires explicit approval before executing a repository-provided command: decides what is
/// done, from whether it was approved before, the variable `PORTBOARD_APPROVE`, and whether a
/// user can be asked.
pub fn ensure_launch_target_approved(
    approved: bool,
    environment: &Option<String>,
    is_terminal: bool,
) -> (result: ApprovalStep)
    ensures
        result == approval_step(approved, crate::text::optional_text(*environment), is_terminal),
{
    if approved {
        return ApprovalStep::Proceed;
    }
    let by_environment = match environment {
        Some(value) => same_text(value.as_str(), "1"),
        None => false,
    };
    if by_environment {
        ApprovalStep::Record
    } else if is_terminal {
        ApprovalStep::Ask
    } else {
        ApprovalStep::Refuse
    }
}

/// Why a command is refused where nobody can be asked.
pub fn approval_unavailable() -> (result: PortboardError)
    ensures
        result@ == failure(
            "Portboard needs approval before running this repository command; rerun in a terminal or set PORTBOARD_APPROVE=1 for this invocation"@,
        ),
{
    PortboardError::new(
        "Portboard needs approval before running this repository command; rerun in a terminal or set PORTBOARD_APPROVE=1 for this invocation".to_owned(),
    )
}

/// An answer that says yes.
pub open spec fn says_yes(answer: Seq<char>) -> bool {
    let bare = ascii_lower_text(trimmed(answer));
    bare == "y"@ || bare == "yes"@
}

/// Takes the answer of the user.
pub fn take_answer(answer: &str) -> (result: Result<(), PortboardError>)
    ensures
        refusal(result) == (if says_yes(answer@) {
            None
        } else {
            Some(failure("Portboard command was not approved"@))
        }),
{
    let bare = trim(answer);
    let lowered = ascii_lowered_text(bare.as_str());
    if same_text(lowered.as_str(), "y") || same_text(lowered.as_str(), "yes") {
        Ok(())
    } else {
        Err(PortboardError::new("Portboard command was not approved".to_owned()))
    }
}

/// What `serde_json::to_string` makes of a list of texts.
pub uninterp spec fn json_of(list: Seq<Seq<char>>) -> Seq<char>;

/// `serde_json::to_string` of the `serde_json` crate for a list of strings: it succeeds, because
/// strings have a JSON form and are written to memory. The form is a function of the texts
/// alone, which has only a name here.
#[verifier::external_body]
pub(crate) fn json_text(list: &Vec<String>) -> (result: Result<String, String>)
    ensures
        match result {
            Ok(text) => text@ == json_of(texts(list@)),
            Err(_) => false,
        },
{
    serde_json::to_string(list).map_err(|error| error.to_string())
}

/// The lines that show a command whose JSON form is given.
pub open spec fn disclosure(cwd: Seq<char>, argv_json: Seq<char>) -> Seq<Seq<char>> {
    seq![
        "Portboard repository command requires approval:"@,
        "  cwd: "@ + cwd,
        "  argv: "@ + argv_json,
    ]
}

/// Writes the lines that show a command whose JSON form is given.
pub fn disclosure_lines(cwd: &str, argv_json: &str) -> (result: Vec<String>)
    ensures
        texts(result@) == disclosure(cwd@, argv_json@),
{
    let mut lines: Vec<String> = Vec::new();
    lines.push("Portboard repository command requires approval:".to_owned());
    let mut place = "  cwd: ".to_owned();
    place.append(cwd);
    lines.push(place);
    let mut command = "  argv: ".to_owned();
    command.append(argv_json);
    lines.push(command);
    proof {
        assert(texts(lines@) =~= disclosure(cwd@, argv_json@));
    }
    lines
}

/// Writes the lines that show the command of a target.
pub fn command_disclosure(cwd: &str, target: &LaunchTarget) -> (result: Result<
    Vec<String>,
    PortboardError,
>)
    ensures
        result matches Ok(lines) && texts(lines@) == disclosure(cwd@, json_of(target@.argv)),
{
    match json_text(&target.argv) {
        Ok(json) => Ok(disclosure_lines(cwd, json.as_str())),
        Err(cause) => Err(PortboardError::new(cause)),
    }
}

/// A command counts as approved exactly where some entry names its worktree and its manifest and
/// holds its target: each of the three is needed.
pub proof fn approvals_name_all_three(
    entries: Seq<ApprovalText>,
    worktree_root: Seq<u8>,
    manifest: Seq<char>,
    target_id: Seq<char>,
)
    ensures
        is_approved(entries, worktree_root, manifest, target_id) <==> exists|i: int|
            0 <= i < entries.len() && (#[trigger] entries[i]).worktree_root == worktree_root
                && entries[i].manifest == manifest && entries[i].target_ids.contains(target_id),
{
    if exists|i: int|
        0 <= i < entries.len() && (#[trigger] entries[i]).worktree_root == worktree_root
            && entries[i].manifest == manifest && entries[i].target_ids.contains(target_id) {
        let i = choose|i: int|
            0 <= i < entries.len() && (#[trigger] entries[i]).worktree_root == worktree_root
                && entries[i].manifest == manifest && entries[i].target_ids.contains(target_id);
        assert(approves(entries[i], worktree_root, manifest, target_id));
    }
}

/// A record keeps the approvals of other worktrees, and those of the same worktree under the same
/// manifest.
pub proof fn earlier_approvals_are_kept(
    before: Seq<ApprovalText>,
    after: Seq<RepositoryApproval>,
    worktree_root: Seq<u8>,
    manifest: Seq<char>,
    target_id: Seq<char>,
    other_root: Seq<u8>,
    other_manifest: Seq<char>,
    other_id: Seq<char>,
)
    requires
        records_approval(before, after, worktree_root, manifest, target_id),
        is_approved(before, other_root, other_manifest, other_id),
        other_root != worktree_root || other_manifest == manifest,
    ensures
        is_approved(approval_texts(after), other_root, other_manifest, other_id),
{
    let at = entry_index(before, worktree_root, 0);
    let entries = approval_texts(after);
    lemma_entry_root(before, worktree_root, 0);
    let i = choose|i: int|
        0 <= i < before.len() && approves(
            #[trigger] before[i],
            other_root,
            other_manifest,
            other_id,
        );
    if at == before.len() {
        assert(entries[i] == before[i]);
    } else if i != at {
        assert(after[i]@ == before[i]);
    } else {
        lemma_added_target(before[at], after[at], manifest, target_id, other_id);
    }
    assert(approves(entries[i], other_root, other_manifest, other_id));
}

/// An approval is accepted exactly where the manifest is still what was loaded and what was
/// shown.
pub proof fn only_shown_manifests_are_approved(
    manifest: Seq<char>,
    current: PortboardConfig,
    loaded: PortboardConfig,
    expected_manifest: Seq<char>,
)
    ensures
        approval_refusal(manifest, current, loaded, expected_manifest) is None <==> current@
            == loaded@ && manifest == expected_manifest,
        manifest_refusal(current, loaded) is None <==> current@ == loaded@,
{
}

/// Nothing runs unapproved: it proceeds only where it was approved before, is approved by the
/// environment only where that says `1`, and otherwise the user is asked, or refused where there
/// is no terminal to ask at.
pub proof fn unapproved_commands_wait(
    approved: bool,
    environment: Option<Seq<char>>,
    is_terminal: bool,
)
    ensures
        approval_step(approved, environment, is_terminal) is Proceed <==> approved,
        approval_step(approved, environment, is_terminal) is Record <==> !approved && environment
            == Some("1"@),
        approval_step(approved, environment, is_terminal) is Ask <==> !approved && environment
            != Some("1"@) && is_terminal,
        approval_step(approved, environment, is_terminal) is Refuse <==> !approved && environment
            != Some("1"@) && !is_terminal,
{
}

/// An answer approves exactly where it is `y` or `yes` in any case, whatever white space stands
/// around it.
pub proof fn only_yes_approves(lead: Seq<char>, answer: Seq<char>, trail: Seq<char>)
    requires
        is_blank(lead),
        is_blank(trail),
        answer.len() > 0 ==> !is_white_space(answer.first()) && !is_white_space(answer.last()),
    ensures
        says_yes(lead + answer + trail) <==> same_but_for_ascii_case(answer, "y"@)
            || same_but_for_ascii_case(answer, "yes"@),
{
    trimming_leaves_the_text(lead, answer, trail);
    reveal_strlit("y");
    reveal_strlit("yes");
    assert(ascii_lower_text("y"@) =~= "y"@);
    assert(ascii_lower_text("yes"@) =~= "yes"@);
}

/// Only the first version of the store is read.
pub proof fn unknown_stores_are_refused(version: u32)
    ensures
        store_refusal(version) is None <==> version == 1,
{
}

/// Whoever is asked for an approval is shown the directory and the command.
pub proof fn disclosures_show_directory_and_command(cwd: Seq<char>, argv_json: Seq<char>)
    ensures
        disclosure(cwd, argv_json).contains("  cwd: "@ + cwd),
        disclosure(cwd, argv_json).contains("  argv: "@ + argv_json),
{
    let lines = disclosure(cwd, argv_json);
    assert(lines[1] == "  cwd: "@ + cwd);
    assert(lines[2] == "  argv: "@ + argv_json);
}

} // verus!
