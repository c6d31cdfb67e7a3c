//! The terminal panel of the current workspace: what it shows, and what keys and clicks do.
//!
//! Keys:
//!   enter            open or start the selected target / open the selected port
//!   o                open the selected endpoint / primary URL in a browser
//!   y                copy the endpoint / primary URL to the clipboard (OSC 52)
//!   s                stop the selected target
//!   r                refresh the inspection now
//!   tab / ← / →      cycle focus between targets, ports, and endpoints
//!   ↑↓ / jk          move the cursor in the focused list
//!   mouse            click a row to select it; click an endpoint or port to open it
//!   q / esc          close the panel (esc first steps focus back)
use ratatui::layout::{Constraint, Direction, Layout, Rect};
use vstd::prelude::*;
use vstd::string::*;

use crate::browser_url::{best_url, browser_url, listener_browser_url, listener_url, UrlOpenOutcome};
use crate::current_workspace_status::{
    status_texts, CurrentLaunchTargetStatus, LaunchTargetRuntimeState, StateText, StatusText,
    WorktreeLaunchTargetInspection,
};
use crate::launch_target_config::{
    configured_target, found_target, target_texts, targets_are_found_by_id, LaunchTarget,
    PortboardConfig, TargetText,
};
use crate::launch_target_processes::{run_texts, LaunchTargetProcess, RunText};
use crate::numbers::{decimal, decimal_text, push_decimal};
use crate::portboard_cli::{decimals, decimals_of, ports_shown, word_at, write_ports};
use crate::process_endpoints::{
    endpoint_texts, pids_of_runs, run_pids, EndpointText, ProcessEndpoint,
};
use crate::runtime_metadata::{named_texts, NamedText, RuntimeEndpoint};
use crate::text::{
    characters, copy_optional, holds_character, join, joined, optional_text, pad_to, padded,
    padding_adds_spaces, same_text, shorten_to, shortened, texts,
};
use crate::worktree_processes::{inventory_texts, InventoryText, WorktreeProcessInventoryEntry};

verus! {

/// One of the three navigable lists in the panel.
#[derive(Clone, Copy, Debug, PartialEq, Eq, Structural)]
pub enum Focus {
    Targets,
    Ports,
    Endpoints,
}

impl Focus {
    pub fn name(self) -> (result: &'static str)
        ensures
            result@ == focus_name(self),
    {
        match self {
            Focus::Targets => "targets",
            Focus::Ports => "ports",
            Focus::Endpoints => "endpoints",
        }
    }
}

/// The name of a list.
pub open spec fn focus_name(focus: Focus) -> Seq<char> {
    match focus {
        Focus::Targets => "targets"@,
        Focus::Ports => "ports"@,
        Focus::Endpoints => "endpoints"@,
    }
}

/// One actionable URL shown in the detail pane.
#[derive(Debug, PartialEq, Eq)]
pub struct EndpointRow {
    pub label: String,
    pub url: String,
}

/// What a row of the detail pane says.
pub struct RowText {
    pub label: Seq<char>,
    pub url: Seq<char>,
}

impl View for EndpointRow {
    type V = RowText;

    open spec fn view(&self) -> RowText {
        RowText { label: self.label@, url: self.url@ }
    }
}

/// What every row of the detail pane says.
pub open spec fn row_texts(rows: Seq<EndpointRow>) -> Seq<RowText> {
    Seq::new(rows.len(), |i: int| rows[i]@)
}

/// One discovered listener in the worktree, shown whether or not a manifest
/// claims its process.
#[derive(Debug, PartialEq, Eq)]
pub struct PortRow {
    pub label: String,
    pub url: String,
    pub pid: u32,
    pub target: Option<String>,
    pub port: u16,
}

/// What a row of the list of ports says.
pub struct PortText {
    pub label: Seq<char>,
    pub url: Seq<char>,
    pub pid: u32,
    pub target: Option<Seq<char>>,
    pub port: u16,
}

impl View for PortRow {
    type V = PortText;

    open spec fn view(&self) -> PortText {
        PortText {
            label: self.label@,
            url: self.url@,
            pid: self.pid,
            target: optional_text(self.target),
            port: self.port,
        }
    }
}

/// What every row of the list of ports says.
pub open spec fn port_texts(rows: Seq<PortRow>) -> Seq<PortText> {
    Seq::new(rows.len(), |i: int| rows[i]@)
}

/// The rows for the listeners of a process.
pub open spec fn entry_ports(entry: InventoryText) -> Seq<PortText> {
    Seq::new(
        entry.endpoints.len(),
        |i: int|
            PortText {
                label: ":"@ + decimal(entry.endpoints[i].port as nat),
                url: listener_url(entry.endpoints[i].address, entry.endpoints[i].port),
                pid: entry.pid,
                target: word_at(entry.target_ids, 0),
                port: entry.endpoints[i].port,
            },
    )
}

/// The rows for the listeners of the first `count` processes.
pub open spec fn listed_ports(entries: Seq<InventoryText>, count: int) -> Seq<PortText>
    decreases count,
{
    if count <= 0 {
        Seq::empty()
    } else {
        listed_ports(entries, count - 1) + entry_ports(entries[count - 1])
    }
}

/// Whether a row belongs before another: by its port, then by its process.
pub open spec fn port_precedes(left: PortText, right: PortText) -> bool {
    left.port < right.port || (left.port == right.port && left.pid < right.pid)
}

/// Sorted rows with one more, behind every row that it does not precede.
pub open spec fn placed(rows: Seq<PortText>, row: PortText) -> Seq<PortText>
    decreases rows.len(),
{
    if rows.len() == 0 || !port_precedes(row, rows.last()) {
        rows.push(row)
    } else {
        placed(rows.drop_last(), row).push(rows.last())
    }
}

/// Rows by port, then by process; otherwise in the order that they had.
pub open spec fn sorted_ports(rows: Seq<PortText>) -> Seq<PortText>
    decreases rows.len(),
{
    if rows.len() == 0 {
        rows
    } else {
        placed(sorted_ports(rows.drop_last()), rows.last())
    }
}

/// Whether two rows show one listener.
pub open spec fn same_listener(left: PortText, right: PortText) -> bool {
    left.url == right.url && left.pid == right.pid
}

/// Rows without those that show what the row before them shows.
pub open spec fn deduplicated(rows: Seq<PortText>) -> Seq<PortText>
    decreases rows.len(),
{
    if rows.len() == 0 {
        rows
    } else {
        let before = deduplicated(rows.drop_last());
        if before.len() > 0 && same_listener(rows.last(), before.last()) {
            before
        } else {
            before.push(rows.last())
        }
    }
}

/// Every listener discovered in the worktree, sorted by port then pid.
pub open spec fn ports_of(inventory: Option<Seq<InventoryText>>) -> Seq<PortText> {
    match inventory {
        None => Seq::empty(),
        Some(entries) => deduplicated(sorted_ports(listed_ports(entries, entries.len() as int))),
    }
}

fn place(rows: &mut Vec<PortRow>, row: PortRow)
    ensures
        port_texts(final(rows)@) == placed(port_texts(old(rows)@), row@),
{
    let ghost before = port_texts(rows@);
    let mut at: usize = rows.len();
    proof {
        assert(before.take(at as int) =~= before);
        assert(placed(before, row@) =~= placed(before.take(at as int), row@) + before.skip(
            at as int,
        ));
    }
    while at > 0 && (row.port < rows[at - 1].port || (row.port == rows[at - 1].port && row.pid
        < rows[at - 1].pid))
        invariant
            at <= rows.len(),
            rows@ == old(rows)@,
            before == port_texts(rows@),
            placed(before, row@) == placed(before.take(at as int), row@) + before.skip(at as int),
        decreases at,
    {
        proof {
            let shorter = before.take(at as int);
            assert(shorter.last() == rows@[at - 1]@);
            assert(shorter.drop_last() =~= before.take(at - 1));
            assert(placed(shorter, row@) == placed(before.take(at - 1), row@).push(
                shorter.last(),
            ));
            assert(placed(before.take(at - 1), row@).push(shorter.last()) + before.skip(at as int)
                =~= placed(before.take(at - 1), row@) + before.skip(at - 1));
        }
        at -= 1;
    }
    proof {
        let shorter = before.take(at as int);
        if at > 0 {
            assert(shorter.last() == rows@[at - 1]@);
        }
        assert(placed(shorter, row@) == shorter.push(row@));
        assert(shorter.push(row@) + before.skip(at as int) =~= before.insert(at as int, row@));
        assert(port_texts(rows@.insert(at as int, row)) =~= before.insert(at as int, row@));
    }
    rows.insert(at, row);
}

impl Clone for PortRow {
    fn clone(&self) -> (result: Self)
        ensures
            result@ == self@,
    {
        PortRow {
            label: self.label.clone(),
            url: self.url.clone(),
            pid: self.pid,
            target: copy_optional(&self.target),
            port: self.port,
        }
    }
}

fn without_repeats(rows: &Vec<PortRow>) -> (result: Vec<PortRow>)
    ensures
        port_texts(result@) == deduplicated(port_texts(rows@)),
{
    let ghost all = port_texts(rows@);
    let mut result: Vec<PortRow> = Vec::new();
    let mut index: usize = 0;
    proof {
        assert(port_texts(result@) =~= deduplicated(all.take(0)));
    }
    while index < rows.len()
        invariant
            index <= rows.len(),
            all == port_texts(rows@),
            port_texts(result@) == deduplicated(all.take(index as int)),
        decreases rows.len() - index,
    {
        let ghost before = port_texts(result@);
        let ghost longer = all.take(index + 1);
        let count: usize = result.len();
        proof {
            assert(longer.drop_last() =~= all.take(index as int));
            assert(longer.last() == rows@[index as int]@);
            assert(before.len() == count);
            if count > 0 {
                assert(before.last() == result@[count - 1]@);
            }
        }
        let repeats = count > 0 && rows[index].pid == result[count - 1].pid && same_text(
            rows[index].url.as_str(),
            result[count - 1].url.as_str(),
        );
        if !repeats {
            let row = rows[index].clone();
            result.push(row);
            proof {
                assert(port_texts(result@) =~= before.push(longer.last()));
            }
        }
        index += 1;
    }
    proof {
        assert(all.take(index as int) =~= all);
    }
    result
}

fn list_ports(entries: &Vec<WorktreeProcessInventoryEntry>) -> (result: Vec<PortRow>)
    ensures
        port_texts(result@) == sorted_ports(
            listed_ports(inventory_texts(entries@), entries@.len() as int),
        ),
{
    let ghost all = inventory_texts(entries@);
    let mut result: Vec<PortRow> = Vec::new();
    let mut index: usize = 0;
    proof {
        assert(port_texts(result@) =~= sorted_ports(listed_ports(all, 0)));
    }
    while index < entries.len()
        invariant
            index <= entries.len(),
            all == inventory_texts(entries@),
            port_texts(result@) == sorted_ports(listed_ports(all, index as int)),
        decreases entries.len() - index,
    {
        let entry = &entries[index];
        let ghost seen = listed_ports(all, index as int);
        let ghost more = entry_ports(entry@);
        proof {
            assert(all[index as int] == entry@);
            assert(seen + more.take(0) =~= seen);
        }
        let mut at: usize = 0;
        while at < entry.endpoints.len()
            invariant
                at <= entry.endpoints.len(),
                more == entry_ports(entry@),
                port_texts(result@) == sorted_ports(seen + more.take(at as int)),
            decreases entry.endpoints.len() - at,
        {
            let endpoint = &entry.endpoints[at];
            proof {
                assert(entry@.endpoints[at as int] == endpoint@);
                assert(entry@.target_ids.len() == entry.target_ids.len());
            }
            let mut label = ":".to_owned();
            push_decimal(&mut label, endpoint.port as u64);
            let target = if entry.target_ids.len() > 0 {
                proof {
                    assert(entry@.target_ids[0] == entry.target_ids@[0]@);
                }
                Some(entry.target_ids[0].clone())
            } else {
                None
            };
            let row = PortRow {
                label,
                url: listener_browser_url(endpoint.address.as_str(), endpoint.port),
                pid: entry.pid,
                target,
                port: endpoint.port,
            };
            proof {
                assert(row@ == more[at as int]);
                let longer = seen + more.take(at + 1);
                assert(longer.drop_last() =~= seen + more.take(at as int));
                assert(longer.last() == row@);
            }
            place(&mut result, row);
            at += 1;
        }
        proof {
            assert(more.take(at as int) =~= more);
        }
        index += 1;
    }
    result
}

proof fn lemma_placed(rows: Seq<PortText>, row: PortText)
    requires
        forall|i: int, j: int|
            0 <= i < j < rows.len() ==> !port_precedes(#[trigger] rows[j], #[trigger] rows[i]),
    ensures
        placed(rows, row).len() == rows.len() + 1,
        forall|i: int, j: int|
            0 <= i < j < placed(rows, row).len() ==> !port_precedes(
                #[trigger] placed(rows, row)[j],
                #[trigger] placed(rows, row)[i],
            ),
        forall|other: PortText|
            #[trigger] placed(rows, row).contains(other) <==> rows.contains(other) || other == row,
    decreases rows.len(),
{
    let after = placed(rows, row);
    if rows.len() == 0 || !port_precedes(row, rows.last()) {
        assert forall|other: PortText|
            #[trigger] after.contains(other) <==> rows.contains(other) || other == row by {
            if rows.contains(other) {
                let i = choose|i: int| 0 <= i < rows.len() && rows[i] == other;
                assert(after[i] == other);
            }
            assert(after[rows.len() as int] == row);
        }
        assert forall|i: int, j: int| 0 <= i < j < after.len() implies !port_precedes(
            #[trigger] after[j],
            #[trigger] after[i],
        ) by {
            if j == rows.len() && i < rows.len() - 1 {
                assert(!port_precedes(rows.last(), rows[i]));
            }
        }
    } else {
        let shorter = rows.drop_last();
        let inner = placed(shorter, row);
        lemma_placed(shorter, row);
        assert forall|other: PortText|
            #[trigger] after.contains(other) <==> rows.contains(other) || other == row by {
            if after.contains(other) {
                let i = choose|i: int| 0 <= i < after.len() && after[i] == other;
                if i < inner.len() {
                    assert(inner[i] == other);
                    assert(inner.contains(other));
                    if shorter.contains(other) {
                        let k = choose|k: int| 0 <= k < shorter.len() && shorter[k] == other;
                        assert(rows[k] == other);
                    }
                } else {
                    assert(rows[rows.len() - 1] == other);
                }
            }
            if rows.contains(other) || other == row {
                if other == rows.last() {
                    assert(after[inner.len() as int] == other);
                } else {
                    if rows.contains(other) {
                        let k = choose|k: int| 0 <= k < rows.len() && rows[k] == other;
                        assert(shorter[k] == other);
                    }
                    assert(inner.contains(other));
                    let i = choose|i: int| 0 <= i < inner.len() && inner[i] == other;
                    assert(after[i] == other);
                }
            }
        }
        assert forall|i: int, j: int| 0 <= i < j < after.len() implies !port_precedes(
            #[trigger] after[j],
            #[trigger] after[i],
        ) by {
            if j < inner.len() {
                assert(!port_precedes(inner[j], inner[i]));
            } else {
                assert(inner.contains(inner[i]));
                if inner[i] != row {
                    let k = choose|k: int| 0 <= k < shorter.len() && shorter[k] == inner[i];
                    assert(!port_precedes(rows[rows.len() - 1], rows[k]));
                }
            }
        }
    }
}

proof fn lemma_sorted_ports(rows: Seq<PortText>)
    ensures
        sorted_ports(rows).len() == rows.len(),
        forall|i: int, j: int|
            0 <= i < j < sorted_ports(rows).len() ==> !port_precedes(
                #[trigger] sorted_ports(rows)[j],
                #[trigger] sorted_ports(rows)[i],
            ),
        forall|row: PortText| #[trigger]
            sorted_ports(rows).contains(row) <==> rows.contains(row),
    decreases rows.len(),
{
    if rows.len() > 0 {
        let shorter = rows.drop_last();
        lemma_sorted_ports(shorter);
        lemma_placed(sorted_ports(shorter), rows.last());
        assert forall|row: PortText| #[trigger]
            sorted_ports(rows).contains(row) <==> rows.contains(row) by {
            if rows.contains(row) {
                let k = choose|k: int| 0 <= k < rows.len() && rows[k] == row;
                if k < shorter.len() {
                    assert(shorter[k] == row);
                    assert(sorted_ports(shorter).contains(row));
                }
            }
            if sorted_ports(rows).contains(row) {
                if row == rows.last() {
                    assert(rows[rows.len() - 1] == row);
                } else {
                    assert(sorted_ports(shorter).contains(row));
                    let k = choose|k: int| 0 <= k < shorter.len() && shorter[k] == row;
                    assert(rows[k] == row);
                }
            }
        }
    }
}

proof fn lemma_deduplicated(rows: Seq<PortText>)
    requires
        forall|i: int, j: int|
            0 <= i < j < rows.len() ==> !port_precedes(#[trigger] rows[j], #[trigger] rows[i]),
    ensures
        forall|i: int, j: int|
            0 <= i < j < deduplicated(rows).len() ==> !port_precedes(
                #[trigger] deduplicated(rows)[j],
                #[trigger] deduplicated(rows)[i],
            ),
        forall|row: PortText| #[trigger] deduplicated(rows).contains(row) ==> rows.contains(row),
        forall|i: int|
            0 <= i < rows.len() ==> exists|j: int|
                0 <= j < deduplicated(rows).len() && same_listener(
                    #[trigger] rows[i],
                    #[trigger] deduplicated(rows)[j],
                ),
        forall|i: int|
            0 < i < deduplicated(rows).len() ==> !same_listener(
                #[trigger] deduplicated(rows)[i],
                deduplicated(rows)[i - 1],
            ),
    decreases rows.len(),
{
    if rows.len() > 0 {
        let shorter = rows.drop_last();
        let before = deduplicated(shorter);
        let after = deduplicated(rows);
        lemma_deduplicated(shorter);
        assert forall|row: PortText| #[trigger] after.contains(row) implies rows.contains(row) by {
            let j = choose|j: int| 0 <= j < after.len() && after[j] == row;
            if j < before.len() {
                assert(before[j] == row);
                assert(before.contains(row));
                let k = choose|k: int| 0 <= k < shorter.len() && shorter[k] == row;
                assert(rows[k] == row);
            } else {
                assert(rows[rows.len() - 1] == row);
            }
        }
        assert forall|i: int, j: int| 0 <= i < j < after.len() implies !port_precedes(
            #[trigger] after[j],
            #[trigger] after[i],
        ) by {
            if j < before.len() {
                assert(!port_precedes(before[j], before[i]));
            } else {
                assert(before.contains(before[i]));
                let k = choose|k: int| 0 <= k < shorter.len() && shorter[k] == before[i];
                assert(!port_precedes(rows[rows.len() - 1], rows[k]));
            }
        }
        assert forall|i: int| 0 <= i < rows.len() implies exists|j: int|
            0 <= j < after.len() && same_listener(#[trigger] rows[i], #[trigger] after[j]) by {
            if i < shorter.len() {
                assert(shorter[i] == rows[i]);
                let j = choose|j: int|
                    0 <= j < before.len() && same_listener(shorter[i], #[trigger] before[j]);
                assert(after[j] == before[j]);
            } else {
                assert(same_listener(rows[i], after[after.len() - 1]));
            }
        }
        assert forall|i: int| 0 < i < after.len() implies !same_listener(
            #[trigger] after[i],
            after[i - 1],
        ) by {
            if i < before.len() {
                assert(!same_listener(before[i], before[i - 1]));
            }
        }
    }
}

/// Every listener of the inventory is shown, and nothing else; the rows ascend by port and then
/// by process, and no row repeats the one before it.
pub proof fn ports_are_listed_in_order(entries: Seq<InventoryText>)
    ensures
        forall|i: int, j: int|
            0 <= i < j < ports_of(Some(entries)).len() ==> !port_precedes(
                #[trigger] ports_of(Some(entries))[j],
                #[trigger] ports_of(Some(entries))[i],
            ),
        forall|i: int|
            0 <= i < ports_of(Some(entries)).len() ==> listed_ports(
                entries,
                entries.len() as int,
            ).contains(#[trigger] ports_of(Some(entries))[i]),
        forall|row: PortText| #[trigger]
            listed_ports(entries, entries.len() as int).contains(row) ==> exists|j: int|
                0 <= j < ports_of(Some(entries)).len() && same_listener(
                    row,
                    #[trigger] ports_of(Some(entries))[j],
                ),
        forall|i: int|
            0 < i < ports_of(Some(entries)).len() ==> !same_listener(
                #[trigger] ports_of(Some(entries))[i],
                ports_of(Some(entries))[i - 1],
            ),
{
    let listed = listed_ports(entries, entries.len() as int);
    let sorted = sorted_ports(listed);
    let shown = ports_of(Some(entries));
    lemma_sorted_ports(listed);
    lemma_deduplicated(sorted);
    assert forall|i: int| 0 <= i < shown.len() implies listed.contains(#[trigger] shown[i]) by {
        assert(shown.contains(shown[i]));
        assert(sorted.contains(shown[i]));
    }
    assert forall|row: PortText| #[trigger] listed.contains(row) implies exists|j: int|
        0 <= j < shown.len() && same_listener(row, #[trigger] shown[j]) by {
        assert(sorted.contains(row));
        let i = choose|i: int| 0 <= i < sorted.len() && sorted[i] == row;
        let j = choose|j: int|
            0 <= j < shown.len() && same_listener(sorted[i], #[trigger] shown[j]);
        assert(same_listener(row, shown[j]));
    }
}

/// What the panel knows and shows. The offsets are how far each list is scrolled.
#[derive(Debug, PartialEq, Eq)]
pub struct PanelApp {
    pub inspection: Option<WorktreeLaunchTargetInspection>,
    pub inventory: Option<Vec<WorktreeProcessInventoryEntry>>,
    pub load_error: Option<String>,
    pub selected_target: usize,
    pub selected_port: usize,
    pub selected_endpoint: usize,
    pub focus: Focus,
    pub target_offset: usize,
    pub port_offset: usize,
    pub endpoint_offset: usize,
    pub message: Option<String>,
    /// A target is being stopped.
    pub stopping: bool,
}

/// What an inspection says.
pub struct InspectionText {
    pub statuses: Seq<StatusText>,
    pub findings: Seq<Seq<char>>,
}

/// What the panel knows and shows, as text.
pub struct PanelText {
    pub inspection: Option<InspectionText>,
    pub inventory: Option<Seq<InventoryText>>,
    pub load_error: Option<Seq<char>>,
    pub selected_target: usize,
    pub selected_port: usize,
    pub selected_endpoint: usize,
    pub focus: Focus,
    pub target_offset: usize,
    pub port_offset: usize,
    pub endpoint_offset: usize,
    pub message: Option<Seq<char>>,
    pub stopping: bool,
}

/// What an optional inspection says.
pub open spec fn optional_inspection(
    inspection: Option<WorktreeLaunchTargetInspection>,
) -> Option<InspectionText> {
    match inspection {
        Some(found) => Some(
            InspectionText {
                statuses: status_texts(found.statuses@),
                findings: texts(found.findings@),
            },
        ),
        None => None,
    }
}

/// What an optional inventory says.
pub open spec fn optional_inventory(
    inventory: Option<Vec<WorktreeProcessInventoryEntry>>,
) -> Option<Seq<InventoryText>> {
    match inventory {
        Some(entries) => Some(inventory_texts(entries@)),
        None => None,
    }
}

impl View for PanelApp {
    type V = PanelText;

    open spec fn view(&self) -> PanelText {
        PanelText {
            inspection: optional_inspection(self.inspection),
            inventory: optional_inventory(self.inventory),
            load_error: optional_text(self.load_error),
            selected_target: self.selected_target,
            selected_port: self.selected_port,
            selected_endpoint: self.selected_endpoint,
            focus: self.focus,
            target_offset: self.target_offset,
            port_offset: self.port_offset,
            endpoint_offset: self.endpoint_offset,
            message: optional_text(self.message),
            stopping: self.stopping,
        }
    }
}

/// Whether the manifest names targets.
pub open spec fn shows_targets(panel: PanelText) -> bool {
    match panel.inspection {
        Some(inspection) => inspection.statuses.len() > 0,
        None => false,
    }
}

/// How many rows the first list has: the targets, or the processes where there are no targets.
pub open spec fn first_rows(panel: PanelText) -> nat {
    if shows_targets(panel) {
        panel.inspection->0.statuses.len()
    } else {
        match panel.inventory {
            Some(entries) => entries.len(),
            None => 0,
        }
    }
}

/// The status that the cursor is on.
pub open spec fn status_under_cursor(panel: PanelText) -> Option<StatusText> {
    match panel.inspection {
        Some(inspection) => if panel.selected_target < inspection.statuses.len() {
            Some(inspection.statuses[panel.selected_target as int])
        } else {
            None
        },
        None => None,
    }
}

/// An address with brackets round one that holds a colon.
pub open spec fn bracketed(address: Seq<char>) -> Seq<char> {
    if address.contains(':') {
        "["@ + address + "]"@
    } else {
        address
    }
}

/// The rows for the named endpoints of a target.
pub open spec fn named_rows(endpoints: Seq<NamedText>) -> Seq<RowText> {
    Seq::new(
        endpoints.len(),
        |i: int| RowText { label: endpoints[i].id, url: endpoints[i].url },
    )
}

/// The rows for the listeners of a target.
pub open spec fn listener_rows(endpoints: Seq<EndpointText>) -> Seq<RowText> {
    Seq::new(
        endpoints.len(),
        |i: int|
            RowText {
                label: "tcp "@ + bracketed(endpoints[i].address) + ":"@ + decimal(
                    endpoints[i].port as nat,
                ),
                url: listener_url(endpoints[i].address, endpoints[i].port),
            },
    )
}

/// The rows of the detail pane: the named endpoints of the target under the cursor, or its
/// listeners where it has no names.
pub open spec fn rows_of(panel: PanelText) -> Seq<RowText> {
    match status_under_cursor(panel) {
        None => Seq::empty(),
        Some(status) => if status.named_endpoints.len() > 0 {
            named_rows(status.named_endpoints)
        } else {
            listener_rows(status.endpoints)
        },
    }
}

/// A cursor put back into a list of so many rows.
pub open spec fn clamped_to(selected: usize, rows: nat) -> usize {
    if selected >= rows {
        if rows == 0 {
            0
        } else {
            (rows - 1) as usize
        }
    } else {
        selected
    }
}

/// The panel with every cursor put back into its list.
pub open spec fn clamped(panel: PanelText) -> PanelText {
    let first = PanelText {
        selected_target: clamped_to(panel.selected_target, first_rows(panel)),
        ..panel
    };
    PanelText {
        selected_port: clamped_to(panel.selected_port, ports_of(panel.inventory).len()),
        selected_endpoint: clamped_to(panel.selected_endpoint, rows_of(first).len()),
        ..first
    }
}

/// A cursor moved within a list of so many rows.
pub open spec fn stepped(selected: int, delta: int, rows: int) -> int {
    let last = if rows > 0 {
        rows - 1
    } else {
        0
    };
    let next = selected + delta;
    if next < 0 {
        0
    } else if next > last {
        last
    } else {
        next
    }
}

/// The panel with the cursor of the focused list moved.
pub open spec fn moved(panel: PanelText, delta: int) -> PanelText {
    match panel.focus {
        Focus::Targets => PanelText {
            selected_target: stepped(
                panel.selected_target as int,
                delta,
                first_rows(panel) as int,
            ) as usize,
            selected_endpoint: 0,
            ..panel
        },
        Focus::Ports => PanelText {
            selected_port: stepped(
                panel.selected_port as int,
                delta,
                ports_of(panel.inventory).len() as int,
            ) as usize,
            ..panel
        },
        Focus::Endpoints => PanelText {
            selected_endpoint: stepped(
                panel.selected_endpoint as int,
                delta,
                rows_of(panel).len() as int,
            ) as usize,
            ..panel
        },
    }
}

/// The list that is focused next.
pub open spec fn next_focus(panel: PanelText) -> Focus {
    match panel.focus {
        Focus::Targets => Focus::Ports,
        Focus::Ports => if shows_targets(panel) {
            Focus::Endpoints
        } else {
            Focus::Targets
        },
        Focus::Endpoints => Focus::Targets,
    }
}

/// What came of looking at the manifest and its targets.
#[derive(Debug, PartialEq, Eq)]
pub enum ManifestOutcome {
    /// There is no manifest.
    Absent,
    /// The manifest, or the inspection of its targets, failed.
    Failed(String),
    Inspected(WorktreeLaunchTargetInspection),
}

/// What came of inspecting the worktree again.
#[derive(Debug, PartialEq, Eq)]
pub enum RefreshOutcome {
    /// The processes could not be discovered.
    Failed(String),
    Discovered {
        manifest: ManifestOutcome,
        /// Nothing where the inventory failed.
        inventory: Option<Vec<WorktreeProcessInventoryEntry>>,
    },
}

/// The panel after inspecting the worktree again. What was loaded replaces what was known; a
/// failing manifest leaves the inspection as it is.
pub open spec fn refreshed(panel: PanelText, outcome: RefreshOutcome) -> PanelText {
    match outcome {
        RefreshOutcome::Failed(error) => PanelText { load_error: Some(error@), ..panel },
        RefreshOutcome::Discovered { manifest, inventory } => {
            let inspection = match manifest {
                ManifestOutcome::Absent => None,
                ManifestOutcome::Failed(_) => panel.inspection,
                ManifestOutcome::Inspected(found) => optional_inspection(Some(found)),
            };
            let load_error = match manifest {
                ManifestOutcome::Failed(error) => Some(error@),
                _ => match inventory {
                    Some(_) => None,
                    None => Some("process scan failed"@),
                },
            };
            clamped(
                PanelText {
                    inspection,
                    inventory: optional_inventory(inventory),
                    load_error,
                    ..panel
                },
            )
        },
    }
}

/// A key on the panel.
#[derive(Clone, Copy, Debug, PartialEq, Eq, Structural)]
pub enum PanelKey {
    Character(char),
    Escape,
    Enter,
    Tab,
    Left,
    Right,
    Up,
    Down,
    Other,
}

/// What is to be done for the panel.
#[derive(Debug, PartialEq, Eq)]
pub enum PanelAction {
    Nothing,
    Close,
    /// Open a URL in a browser, and say what came of it.
    OpenUrl(String),
    /// Copy a URL to the clipboard, and say what came of it.
    CopyUrl(String),
    /// Load the manifest, and open or start a target of it.
    OpenOrStart { target_id: String, label: String },
    /// Load the manifest to stop the target under the cursor.
    LoadToStop,
    /// Inspect the worktree again.
    Refresh,
}

/// What is to be done for the panel, as text.
pub enum ActionText {
    Nothing,
    Close,
    OpenUrl(Seq<char>),
    CopyUrl(Seq<char>),
    OpenOrStart { target_id: Seq<char>, label: Seq<char> },
    LoadToStop,
    Refresh,
}

impl View for PanelAction {
    type V = ActionText;

    open spec fn view(&self) -> ActionText {
        match *self {
            PanelAction::Nothing => ActionText::Nothing,
            PanelAction::Close => ActionText::Close,
            PanelAction::OpenUrl(url) => ActionText::OpenUrl(url@),
            PanelAction::CopyUrl(url) => ActionText::CopyUrl(url@),
            PanelAction::OpenOrStart { target_id, label } => ActionText::OpenOrStart {
                target_id: target_id@,
                label: label@,
            },
            PanelAction::LoadToStop => ActionText::LoadToStop,
            PanelAction::Refresh => ActionText::Refresh,
        }
    }
}

/// The URL of the row that the cursor of the focused list is on. The first list has no rows
/// with URLs.
pub open spec fn row_url(panel: PanelText) -> Option<Seq<char>> {
    match panel.focus {
        Focus::Targets => None,
        Focus::Ports => if panel.selected_port < ports_of(panel.inventory).len() {
            Some(ports_of(panel.inventory)[panel.selected_port as int].url)
        } else {
            None
        },
        Focus::Endpoints => if panel.selected_endpoint < rows_of(panel).len() {
            Some(rows_of(panel)[panel.selected_endpoint as int].url)
        } else {
            None
        },
    }
}

/// What opening the row under the cursor asks for.
pub open spec fn open_row(panel: PanelText) -> ActionText {
    match row_url(panel) {
        Some(url) => ActionText::OpenUrl(url),
        None => ActionText::Nothing,
    }
}

/// What copying the row under the cursor asks for.
pub open spec fn copy_row(panel: PanelText) -> ActionText {
    match row_url(panel) {
        Some(url) => ActionText::CopyUrl(url),
        None => ActionText::Nothing,
    }
}

/// What a key does to the panel, and what it asks for.
pub open spec fn after_key(panel: PanelText, key: PanelKey) -> (PanelText, ActionText) {
    let url = match status_under_cursor(panel) {
        Some(status) => best_url(status),
        None => None,
    };
    match key {
        PanelKey::Escape => match panel.focus {
            Focus::Endpoints => (PanelText { focus: Focus::Ports, ..panel }, ActionText::Nothing),
            Focus::Ports => (PanelText { focus: Focus::Targets, ..panel }, ActionText::Nothing),
            Focus::Targets => (panel, ActionText::Close),
        },
        PanelKey::Enter => if panel.focus == Focus::Targets {
            match status_under_cursor(panel) {
                Some(status) => (
                    panel,
                    ActionText::OpenOrStart { target_id: status.id, label: status.label },
                ),
                None => (panel, ActionText::Nothing),
            }
        } else {
            (panel, open_row(panel))
        },
        PanelKey::Tab | PanelKey::Right | PanelKey::Left => (
            PanelText { focus: next_focus(panel), ..panel },
            ActionText::Nothing,
        ),
        PanelKey::Down => (moved(panel, 1), ActionText::Nothing),
        PanelKey::Up => (moved(panel, -1), ActionText::Nothing),
        PanelKey::Other => (panel, ActionText::Nothing),
        PanelKey::Character(character) => if character == 'q' {
            (panel, ActionText::Close)
        } else if character == 'o' {
            if panel.focus != Focus::Targets {
                (panel, open_row(panel))
            } else if status_under_cursor(panel) is None {
                (panel, ActionText::Nothing)
            } else {
                match url {
                    Some(url) => (panel, ActionText::OpenUrl(url)),
                    None => (
                        PanelText { message: Some("no endpoint URL to open"@), ..panel },
                        ActionText::Nothing,
                    ),
                }
            }
        } else if character == 'y' {
            if panel.focus != Focus::Targets {
                (panel, copy_row(panel))
            } else if status_under_cursor(panel) is None {
                (panel, ActionText::Nothing)
            } else {
                match url {
                    Some(url) => (panel, ActionText::CopyUrl(url)),
                    None => (
                        PanelText { message: Some("no endpoint URL to copy"@), ..panel },
                        ActionText::Nothing,
                    ),
                }
            }
        } else if character == 's' || character == 'S' {
            if panel.focus == Focus::Targets && !panel.stopping {
                (panel, ActionText::LoadToStop)
            } else {
                (panel, ActionText::Nothing)
            }
        } else if character == 'r' {
            (panel, ActionText::Refresh)
        } else if character == 'j' {
            (moved(panel, 1), ActionText::Nothing)
        } else if character == 'k' {
            (moved(panel, -1), ActionText::Nothing)
        } else {
            (panel, ActionText::Nothing)
        },
    }
}

/// A part of the terminal.
#[derive(Clone, Copy, Debug, PartialEq, Eq, Structural)]
pub struct Area {
    pub x: u16,
    pub y: u16,
    pub width: u16,
    pub height: u16,
}

/// Whether a cell lies in an area, as far as cells have numbers.
pub open spec fn holds_cell(area: Area, x: u16, y: u16) -> bool {
    area.x <= x < area.x + area.width && x < u16::MAX && area.y <= y < area.y + area.height && y
        < u16::MAX
}

pub fn rect_contains(area: Area, point: (u16, u16)) -> (result: bool)
    ensures
        result == holds_cell(area, point.0, point.1),
{
    point.0 >= area.x && point.0 < area.x.saturating_add(area.width) && point.1 >= area.y
        && point.1 < area.y.saturating_add(area.height)
}

/// The parts of the terminal that the panel draws on: each pane as a whole, and the rows within
/// the border of each list.
#[derive(Clone, Copy, Debug, PartialEq, Eq, Structural)]
pub struct Areas {
    pub header: Area,
    pub footer: Area,
    pub targets_block: Area,
    pub targets: Area,
    pub ports_block: Area,
    pub ports: Area,
    pub info_block: Area,
    pub endpoints_block: Area,
    pub endpoints: Area,
}

/// What the mouse did.
#[derive(Clone, Copy, Debug, PartialEq, Eq, Structural)]
pub enum MouseKind {
    LeftDown,
    ScrollDown,
    ScrollUp,
    Other,
}

/// What the mouse did at a cell.
#[derive(Clone, Copy, Debug, PartialEq, Eq, Structural)]
pub struct PanelMouse {
    pub kind: MouseKind,
    pub column: u16,
    pub row: u16,
}

/// The row of a scrolled list that is shown at a row of the terminal.
pub open spec fn clicked_row(area: Area, row: u16, offset: usize) -> int {
    row - area.y + offset
}

/// The list that a scroll focuses: the one under the mouse.
pub open spec fn scrolled_focus(panel: PanelText, mouse: PanelMouse, areas: Areas) -> Focus {
    if holds_cell(areas.targets, mouse.column, mouse.row) {
        Focus::Targets
    } else if holds_cell(areas.ports, mouse.column, mouse.row) {
        Focus::Ports
    } else if holds_cell(areas.endpoints, mouse.column, mouse.row) && shows_targets(panel) {
        Focus::Endpoints
    } else {
        panel.focus
    }
}

/// What a click does to the panel, and what it asks for.
pub open spec fn after_click(panel: PanelText, column: u16, row: u16, areas: Areas) -> (
    PanelText,
    ActionText,
) {
    if holds_cell(areas.targets, column, row) {
        let index = clicked_row(areas.targets, row, panel.target_offset);
        if index < first_rows(panel) {
            (
                PanelText {
                    selected_target: index as usize,
                    selected_endpoint: 0,
                    focus: Focus::Targets,
                    ..panel
                },
                ActionText::Nothing,
            )
        } else {
            (panel, ActionText::Nothing)
        }
    } else if holds_cell(areas.ports, column, row) {
        let index = clicked_row(areas.ports, row, panel.port_offset);
        if index < ports_of(panel.inventory).len() {
            (
                PanelText { selected_port: index as usize, focus: Focus::Ports, ..panel },
                ActionText::OpenUrl(ports_of(panel.inventory)[index].url),
            )
        } else {
            (panel, ActionText::Nothing)
        }
    } else if holds_cell(areas.endpoints, column, row) {
        let index = clicked_row(areas.endpoints, row, panel.endpoint_offset);
        if index < rows_of(panel).len() {
            (
                PanelText { selected_endpoint: index as usize, focus: Focus::Endpoints, ..panel },
                ActionText::OpenUrl(rows_of(panel)[index].url),
            )
        } else {
            (panel, ActionText::Nothing)
        }
    } else {
        (panel, ActionText::Nothing)
    }
}

/// What the mouse does to the panel, and what it asks for.
pub open spec fn after_mouse(panel: PanelText, mouse: PanelMouse, areas: Areas) -> (
    PanelText,
    ActionText,
) {
    let focused = PanelText { focus: scrolled_focus(panel, mouse, areas), ..panel };
    match mouse.kind {
        MouseKind::LeftDown => after_click(panel, mouse.column, mouse.row, areas),
        MouseKind::ScrollDown => (moved(focused, 1), ActionText::Nothing),
        MouseKind::ScrollUp => (moved(focused, -1), ActionText::Nothing),
        MouseKind::Other => (panel, ActionText::Nothing),
    }
}

fn write_named_rows(endpoints: &Vec<RuntimeEndpoint>) -> (result: Vec<EndpointRow>)
    ensures
        row_texts(result@) == named_rows(named_texts(endpoints@)),
{
    let ghost all = named_texts(endpoints@);
    let mut rows: Vec<EndpointRow> = Vec::new();
    let mut index: usize = 0;
    while index < endpoints.len()
        invariant
            index <= endpoints.len(),
            all == named_texts(endpoints@),
            row_texts(rows@) == named_rows(all).take(index as int),
        decreases endpoints.len() - index,
    {
        proof {
            assert(all[index as int] == endpoints@[index as int]@);
        }
        let ghost before = row_texts(rows@);
        let row = EndpointRow {
            label: endpoints[index].id.clone(),
            url: endpoints[index].url.clone(),
        };
        proof {
            assert(row@ == named_rows(all)[index as int]);
        }
        rows.push(row);
        index += 1;
        proof {
            assert(row_texts(rows@) =~= before.push(row@));
            assert(row_texts(rows@) =~= named_rows(all).take(index as int));
        }
    }
    proof {
        assert(row_texts(rows@) =~= named_rows(all));
    }
    rows
}

fn write_listener_rows(endpoints: &Vec<ProcessEndpoint>) -> (result: Vec<EndpointRow>)
    ensures
        row_texts(result@) == listener_rows(endpoint_texts(endpoints@)),
{
    let ghost all = endpoint_texts(endpoints@);
    let mut rows: Vec<EndpointRow> = Vec::new();
    let mut index: usize = 0;
    while index < endpoints.len()
        invariant
            index <= endpoints.len(),
            all == endpoint_texts(endpoints@),
            row_texts(rows@) == listener_rows(all).take(index as int),
        decreases endpoints.len() - index,
    {
        let endpoint = &endpoints[index];
        proof {
            assert(all[index as int] == endpoint@);
        }
        let mut label = "tcp ".to_owned();
        let address = characters(endpoint.address.as_str());
        if holds_character(address.as_slice(), ':') {
            label.append("[");
            label.append(endpoint.address.as_str());
            label.append("]");
        } else {
            label.append(endpoint.address.as_str());
        }
        label.append(":");
        push_decimal(&mut label, endpoint.port as u64);
        proof {
            assert(label@ =~= "tcp "@ + bracketed(endpoint@.address) + ":"@ + decimal(
                endpoint@.port as nat,
            ));
        }
        let row = EndpointRow {
            label,
            url: listener_browser_url(endpoint.address.as_str(), endpoint.port),
        };
        let ghost before = row_texts(rows@);
        proof {
            assert(row@ == listener_rows(all)[index as int]);
        }
        rows.push(row);
        index += 1;
        proof {
            assert(row_texts(rows@) =~= before.push(row@));
            assert(row_texts(rows@) =~= listener_rows(all).take(index as int));
        }
    }
    proof {
        assert(row_texts(rows@) =~= listener_rows(all));
    }
    rows
}

fn clamp_to(selected: usize, rows: usize) -> (result: usize)
    ensures
        result == clamped_to(selected, rows as nat),
{
    if selected >= rows {
        rows.saturating_sub(1)
    } else {
        selected
    }
}

fn step(selected: usize, delta: i64, rows: usize) -> (result: usize)
    ensures
        result == stepped(selected as int, delta as int, rows as int),
{
    let last: i128 = if rows > 0 {
        rows as i128 - 1
    } else {
        0
    };
    let next: i128 = selected as i128 + delta as i128;
    if next < 0 {
        0
    } else if next > last {
        last as usize
    } else {
        next as usize
    }
}

/// An optional status as it stands in the panel.
pub open spec fn optional_status(status: Option<&CurrentLaunchTargetStatus>) -> Option<StatusText> {
    match status {
        Some(found) => Some(found@),
        None => None,
    }
}

impl PanelApp {
    /// A panel that knows nothing yet.
    pub fn new() -> (result: Self)
        ensures
            result@ == (PanelText {
                inspection: None,
                inventory: None,
                load_error: None,
                selected_target: 0,
                selected_port: 0,
                selected_endpoint: 0,
                focus: Focus::Targets,
                target_offset: 0,
                port_offset: 0,
                endpoint_offset: 0,
                message: None,
                stopping: false,
            }),
    {
        PanelApp {
            inspection: None,
            inventory: None,
            load_error: None,
            selected_target: 0,
            selected_port: 0,
            selected_endpoint: 0,
            focus: Focus::Targets,
            target_offset: 0,
            port_offset: 0,
            endpoint_offset: 0,
            message: None,
            stopping: false,
        }
    }

    /// Takes in what came of inspecting the worktree again.
    pub fn refresh(&mut self, outcome: RefreshOutcome)
        ensures
            final(self)@ == refreshed(old(self)@, outcome),
    {
        self.load_error = None;
        match outcome {
            RefreshOutcome::Failed(error) => {
                self.load_error = Some(error);
            },
            RefreshOutcome::Discovered { manifest, inventory } => {
                match manifest {
                    ManifestOutcome::Absent => {
                        self.inspection = None;
                    },
                    ManifestOutcome::Failed(error) => {
                        self.load_error = Some(error);
                    },
                    ManifestOutcome::Inspected(found) => {
                        self.inspection = Some(found);
                    },
                }
                if inventory.is_none() && self.load_error.is_none() {
                    self.load_error = Some("process scan failed".to_owned());
                }
                self.inventory = inventory;
                self.clamp_selection();
            },
        }
    }

    /// Puts every cursor back into its list.
    pub fn clamp_selection(&mut self)
        ensures
            final(self)@ == clamped(old(self)@),
    {
        let target_count: usize = self.target_count();
        self.selected_target = clamp_to(self.selected_target, target_count);
        let ports = self.port_rows();
        proof {
            assert(port_texts(ports@).len() == ports@.len());
        }
        self.selected_port = clamp_to(self.selected_port, ports.len());
        let rows = self.endpoint_rows();
        proof {
            assert(row_texts(rows@).len() == rows@.len());
        }
        self.selected_endpoint = clamp_to(self.selected_endpoint, rows.len());
    }

    /// Every listener discovered in the worktree, sorted by port then pid.
    pub fn port_rows(&self) -> (result: Vec<PortRow>)
        ensures
            port_texts(result@) == ports_of(self@.inventory),
    {
        match &self.inventory {
            Some(entries) => {
                let rows = list_ports(entries);
                proof {
                    assert(inventory_texts(entries@).len() == entries@.len());
                }
                without_repeats(&rows)
            },
            None => {
                let rows: Vec<PortRow> = Vec::new();
                proof {
                    assert(port_texts(rows@) =~= Seq::<PortText>::empty());
                }
                rows
            },
        }
    }

    /// How many rows the first list has.
    pub fn target_count(&self) -> (result: usize)
        ensures
            result == first_rows(self@),
    {
        match &self.inspection {
            Some(inspection) => {
                proof {
                    assert(status_texts(inspection.statuses@).len() == inspection.statuses.len());
                }
                if inspection.statuses.len() > 0 {
                    return inspection.statuses.len();
                }
            },
            None => {},
        }
        match &self.inventory {
            Some(entries) => {
                proof {
                    assert(inventory_texts(entries@).len() == entries.len());
                }
                entries.len()
            },
            None => 0,
        }
    }

    /// Whether the manifest names targets.
    pub fn has_targets(&self) -> (result: bool)
        ensures
            result == shows_targets(self@),
    {
        match &self.inspection {
            Some(inspection) => {
                proof {
                    assert(status_texts(inspection.statuses@).len() == inspection.statuses.len());
                }
                inspection.statuses.len() > 0
            },
            None => false,
        }
    }

    /// The status that the cursor is on.
    pub fn selected_status(&self) -> (result: Option<&CurrentLaunchTargetStatus>)
        ensures
            optional_status(result) == status_under_cursor(self@),
    {
        match &self.inspection {
            Some(inspection) => {
                proof {
                    assert(status_texts(inspection.statuses@).len() == inspection.statuses.len());
                }
                if self.selected_target < inspection.statuses.len() {
                    proof {
                        assert(status_texts(inspection.statuses@)[self.selected_target as int]
                            == inspection.statuses@[self.selected_target as int]@);
                    }
                    Some(&inspection.statuses[self.selected_target])
                } else {
                    None
                }
            },
            None => None,
        }
    }

    /// The rows of the detail pane.
    pub fn endpoint_rows(&self) -> (result: Vec<EndpointRow>)
        ensures
            row_texts(result@) == rows_of(self@),
    {
        match self.selected_status() {
            None => {
                let rows: Vec<EndpointRow> = Vec::new();
                proof {
                    assert(row_texts(rows@) =~= Seq::<RowText>::empty());
                }
                rows
            },
            Some(status) => {
                proof {
                    assert(status@.named_endpoints.len() == status.named_endpoints.len());
                }
                if status.named_endpoints.len() > 0 {
                    write_named_rows(&status.named_endpoints)
                } else {
                    write_listener_rows(&status.endpoints)
                }
            },
        }
    }

    /// Cycles focus through targets, ports, and endpoints.
    pub fn toggle_focus(&mut self)
        ensures
            final(self)@ == (PanelText { focus: next_focus(old(self)@), ..old(self)@ }),
    {
        self.focus = match self.focus {
            Focus::Targets => Focus::Ports,
            Focus::Ports => {
                if self.has_targets() {
                    Focus::Endpoints
                } else {
                    Focus::Targets
                }
            },
            Focus::Endpoints => Focus::Targets,
        };
    }

    /// Moves the cursor of the focused list.
    pub fn move_selection(&mut self, delta: i64)
        ensures
            final(self)@ == moved(old(self)@, delta as int),
    {
        match self.focus {
            Focus::Targets => {
                let rows: usize = self.target_count();
                self.selected_target = step(self.selected_target, delta, rows);
                self.selected_endpoint = 0;
            },
            Focus::Ports => {
                let rows = self.port_rows();
                proof {
                    assert(port_texts(rows@).len() == rows@.len());
                }
                self.selected_port = step(self.selected_port, delta, rows.len());
            },
            Focus::Endpoints => {
                let rows = self.endpoint_rows();
                proof {
                    assert(row_texts(rows@).len() == rows@.len());
                }
                self.selected_endpoint = step(self.selected_endpoint, delta, rows.len());
            },
        }
    }

    fn port_url(&self, index: usize) -> (result: Option<String>)
        ensures
            optional_text(result) == (if index < ports_of(self@.inventory).len() {
                Some(ports_of(self@.inventory)[index as int].url)
            } else {
                None
            }),
    {
        let rows = self.port_rows();
        proof {
            assert(port_texts(rows@).len() == rows@.len());
        }
        if index < rows.len() {
            proof {
                assert(port_texts(rows@)[index as int] == rows@[index as int]@);
            }
            Some(rows[index].url.clone())
        } else {
            None
        }
    }

    fn endpoint_url(&self, index: usize) -> (result: Option<String>)
        ensures
            optional_text(result) == (if index < rows_of(self@).len() {
                Some(rows_of(self@)[index as int].url)
            } else {
                None
            }),
    {
        let rows = self.endpoint_rows();
        proof {
            assert(row_texts(rows@).len() == rows@.len());
        }
        if index < rows.len() {
            proof {
                assert(row_texts(rows@)[index as int] == rows@[index as int]@);
            }
            Some(rows[index].url.clone())
        } else {
            None
        }
    }

    fn focused_url(&self) -> (result: Option<String>)
        ensures
            optional_text(result) == row_url(self@),
    {
        match self.focus {
            Focus::Targets => None,
            Focus::Ports => self.port_url(self.selected_port),
            Focus::Endpoints => self.endpoint_url(self.selected_endpoint),
        }
    }

    fn open_focused(&self) -> (result: PanelAction)
        ensures
            result@ == open_row(self@),
    {
        match self.focused_url() {
            Some(url) => PanelAction::OpenUrl(url),
            None => PanelAction::Nothing,
        }
    }

    fn copy_focused(&self) -> (result: PanelAction)
        ensures
            result@ == copy_row(self@),
    {
        match self.focused_url() {
            Some(url) => PanelAction::CopyUrl(url),
            None => PanelAction::Nothing,
        }
    }

    fn open_or_start(&self) -> (result: PanelAction)
        ensures
            result@ == (match status_under_cursor(self@) {
                Some(status) => ActionText::OpenOrStart {
                    target_id: status.id,
                    label: status.label,
                },
                None => ActionText::Nothing,
            }),
    {
        match self.selected_status() {
            Some(status) => PanelAction::OpenOrStart {
                target_id: status.id.0.clone(),
                label: status.label.clone(),
            },
            None => PanelAction::Nothing,
        }
    }

    /// The best URL of the target under the cursor: nothing where there is no such target, and
    /// nothing within where it has no URL.
    fn primary_url(&self) -> (result: Option<Option<String>>)
        ensures
            match status_under_cursor(self@) {
                Some(status) => result matches Some(url) && optional_text(url) == best_url(status),
                None => result is None,
            },
    {
        match self.selected_status() {
            Some(status) => Some(browser_url(status)),
            None => None,
        }
    }

    /// Takes in a key that is pressed or repeated: says what is to be done. A key that is let
    /// go does nothing.
    pub fn handle_event(&mut self, key: PanelKey, released: bool) -> (result: PanelAction)
        ensures
            released ==> final(self)@ == old(self)@ && result@ == ActionText::Nothing,
            !released ==> (final(self)@, result@) == after_key(old(self)@, key),
    {
        if released {
            return PanelAction::Nothing;
        }
        match key {
            PanelKey::Escape => {
                match self.focus {
                    Focus::Endpoints => {
                        self.focus = Focus::Ports;
                    },
                    Focus::Ports => {
                        self.focus = Focus::Targets;
                    },
                    Focus::Targets => {
                        return PanelAction::Close;
                    },
                }
                PanelAction::Nothing
            },
            PanelKey::Enter => {
                if self.focus == Focus::Targets {
                    self.open_or_start()
                } else {
                    self.open_focused()
                }
            },
            PanelKey::Tab | PanelKey::Right | PanelKey::Left => {
                self.toggle_focus();
                PanelAction::Nothing
            },
            PanelKey::Down => {
                self.move_selection(1);
                PanelAction::Nothing
            },
            PanelKey::Up => {
                self.move_selection(-1);
                PanelAction::Nothing
            },
            PanelKey::Other => PanelAction::Nothing,
            PanelKey::Character(character) => {
                if character == 'q' {
                    PanelAction::Close
                } else if character == 'o' {
                    if self.focus != Focus::Targets {
                        return self.open_focused();
                    }
                    match self.primary_url() {
                        None => PanelAction::Nothing,
                        Some(Some(url)) => PanelAction::OpenUrl(url),
                        Some(None) => {
                            self.message = Some("no endpoint URL to open".to_owned());
                            PanelAction::Nothing
                        },
                    }
                } else if character == 'y' {
                    if self.focus != Focus::Targets {
                        return self.copy_focused();
                    }
                    match self.primary_url() {
                        None => PanelAction::Nothing,
                        Some(Some(url)) => PanelAction::CopyUrl(url),
                        Some(None) => {
                            self.message = Some("no endpoint URL to copy".to_owned());
                            PanelAction::Nothing
                        },
                    }
                } else if character == 's' || character == 'S' {
                    if self.focus == Focus::Targets && !self.stopping {
                        PanelAction::LoadToStop
                    } else {
                        PanelAction::Nothing
                    }
                } else if character == 'r' {
                    PanelAction::Refresh
                } else if character == 'j' {
                    self.move_selection(1);
                    PanelAction::Nothing
                } else if character == 'k' {
                    self.move_selection(-1);
                    PanelAction::Nothing
                } else {
                    PanelAction::Nothing
                }
            },
        }
    }

    fn click(&mut self, column: u16, row: u16, areas: &Areas) -> (result: PanelAction)
        ensures
            (final(self)@, result@) == after_click(old(self)@, column, row, *areas),
    {
        let point = (column, row);
        if rect_contains(areas.targets, point) {
            let rows: usize = self.target_count();
            let down: usize = (row - areas.targets.y) as usize;
            if self.target_offset < rows && down < rows - self.target_offset {
                self.selected_target = down + self.target_offset;
                self.selected_endpoint = 0;
                self.focus = Focus::Targets;
            }
            PanelAction::Nothing
        } else if rect_contains(areas.ports, point) {
            let rows = self.port_rows();
            let count: usize = rows.len();
            let down: usize = (row - areas.ports.y) as usize;
            proof {
                assert(port_texts(rows@).len() == rows@.len());
            }
            if self.port_offset < count && down < count - self.port_offset {
                let index: usize = down + self.port_offset;
                proof {
                    assert(port_texts(rows@)[index as int] == rows@[index as int]@);
                }
                self.selected_port = index;
                self.focus = Focus::Ports;
                PanelAction::OpenUrl(rows[index].url.clone())
            } else {
                PanelAction::Nothing
            }
        } else if rect_contains(areas.endpoints, point) {
            let rows = self.endpoint_rows();
            let count: usize = rows.len();
            let down: usize = (row - areas.endpoints.y) as usize;
            proof {
                assert(row_texts(rows@).len() == rows@.len());
            }
            if self.endpoint_offset < count && down < count - self.endpoint_offset {
                let index: usize = down + self.endpoint_offset;
                proof {
                    assert(row_texts(rows@)[index as int] == rows@[index as int]@);
                }
                self.selected_endpoint = index;
                self.focus = Focus::Endpoints;
                PanelAction::OpenUrl(rows[index].url.clone())
            } else {
                PanelAction::Nothing
            }
        } else {
            PanelAction::Nothing
        }
    }

    fn focus_under(&mut self, mouse: PanelMouse, areas: &Areas)
        ensures
            final(self)@ == (PanelText {
                focus: scrolled_focus(old(self)@, mouse, *areas),
                ..old(self)@
            }),
    {
        let point = (mouse.column, mouse.row);
        if rect_contains(areas.targets, point) {
            self.focus = Focus::Targets;
        } else if rect_contains(areas.ports, point) {
            self.focus = Focus::Ports;
        } else if rect_contains(areas.endpoints, point) && self.has_targets() {
            self.focus = Focus::Endpoints;
        }
    }

    /// Takes in what the mouse did on a panel that is drawn in some areas: says what is to be
    /// done.
    pub fn handle_mouse_in(&mut self, mouse: PanelMouse, areas: &Areas) -> (result: PanelAction)
        ensures
            (final(self)@, result@) == after_mouse(old(self)@, mouse, *areas),
    {
        match mouse.kind {
            MouseKind::LeftDown => self.click(mouse.column, mouse.row, areas),
            MouseKind::ScrollDown => {
                self.focus_under(mouse, areas);
                self.move_selection(1);
                PanelAction::Nothing
            },
            MouseKind::ScrollUp => {
                self.focus_under(mouse, areas);
                self.move_selection(-1);
                PanelAction::Nothing
            },
            MouseKind::Other => PanelAction::Nothing,
        }
    }
}

/// Every cursor is in its list, or at the start of an empty one.
pub open spec fn cursors_in_lists(panel: PanelText) -> bool {
    &&& panel.selected_target < first_rows(panel) || panel.selected_target == 0
    &&& panel.selected_port < ports_of(panel.inventory).len() || panel.selected_port == 0
    &&& panel.selected_endpoint < rows_of(panel).len() || panel.selected_endpoint == 0
}

/// Whatever is pressed, every cursor stays in its list.
pub proof fn keys_keep_cursors_in_lists(panel: PanelText, key: PanelKey)
    requires
        cursors_in_lists(panel),
    ensures
        cursors_in_lists(after_key(panel, key).0),
{
}

/// Whatever is clicked or scrolled, every cursor stays in its list.
pub proof fn clicks_keep_cursors_in_lists(panel: PanelText, mouse: PanelMouse, areas: Areas)
    requires
        cursors_in_lists(panel),
    ensures
        cursors_in_lists(after_mouse(panel, mouse, areas).0),
{
}

/// Inspecting the worktree again puts every cursor into its list, wherever it was.
pub proof fn refreshing_puts_cursors_into_lists(panel: PanelText, outcome: RefreshOutcome)
    requires
        outcome is Discovered,
    ensures
        cursors_in_lists(refreshed(panel, outcome)),
{
}

/// Cycling comes back to where it started: over the three lists, or over two where there are
/// no targets. Escape closes the panel at the third press at the latest.
pub proof fn focus_comes_round(panel: PanelText)
    ensures
        ({
            let once = after_key(panel, PanelKey::Tab).0;
            let twice = after_key(once, PanelKey::Tab).0;
            let thrice = after_key(twice, PanelKey::Tab).0;
            &&& shows_targets(panel) ==> thrice.focus == panel.focus
            &&& !shows_targets(panel) && panel.focus != Focus::Endpoints ==> twice.focus
                == panel.focus
            &&& !shows_targets(panel) ==> once.focus != Focus::Endpoints
        }),
        ({
            let once = after_key(panel, PanelKey::Escape);
            let twice = after_key(once.0, PanelKey::Escape);
            let thrice = after_key(twice.0, PanelKey::Escape);
            once.1 == ActionText::Close || twice.1 == ActionText::Close || thrice.1
                == ActionText::Close
        }),
{
}

/// On the lists of ports and endpoints no key starts or stops a target.
pub proof fn only_targets_are_run(panel: PanelText, key: PanelKey)
    requires
        panel.focus != Focus::Targets,
    ensures
        !(after_key(panel, key).1 is OpenOrStart),
        !(after_key(panel, key).1 is LoadToStop),
{
}

/// What is said once a URL was to be opened.
pub open spec fn opened_words(url: Seq<char>, outcome: UrlOpenOutcome) -> Seq<char> {
    match outcome {
        UrlOpenOutcome::OpenedLocally => "opens "@ + url + " in your browser"@,
        UrlOpenOutcome::OfferedLink => "ctrl-click "@ + url
            + " above to open it in your local browser"@,
    }
}

/// Says what came of opening a URL.
pub fn open_message(url: &str, outcome: UrlOpenOutcome) -> (result: String)
    ensures
        result@ == opened_words(url@, outcome),
{
    match outcome {
        UrlOpenOutcome::OpenedLocally => {
            let mut text = "opens ".to_owned();
            text.append(url);
            text.append(" in your browser");
            text
        },
        UrlOpenOutcome::OfferedLink => {
            let mut text = "ctrl-click ".to_owned();
            text.append(url);
            text.append(" above to open it in your local browser");
            text
        },
    }
}

/// What is said once a URL was to be copied.
pub open spec fn copied_words(url: Seq<char>, copied: bool) -> Seq<char> {
    if copied {
        "copied "@ + url + " to clipboard"@
    } else {
        url + " (terminal does not support OSC 52 copy; select the text instead)"@
    }
}

/// Says what came of copying a URL.
pub fn copy_message(url: &str, copied: bool) -> (result: String)
    ensures
        result@ == copied_words(url@, copied),
{
    if copied {
        let mut text = "copied ".to_owned();
        text.append(url);
        text.append(" to clipboard");
        text
    } else {
        let mut text = url.to_owned();
        text.append(" (terminal does not support OSC 52 copy; select the text instead)");
        text
    }
}

/// What came of asking for the result of stopping a target.
#[derive(Debug, PartialEq, Eq)]
pub enum StopPoll {
    NothingYet,
    Stopped(Vec<u32>),
    Failed(String),
    Disconnected,
}

/// What is said of the result of stopping a target, where there is one.
pub open spec fn stop_words(polled: StopPoll) -> Option<Seq<char>> {
    match polled {
        StopPoll::NothingYet => None,
        StopPoll::Stopped(pids) => Some(
            if pids@.len() == 0 {
                "already stopped"@
            } else {
                "stopping pid "@ + joined(decimals(pids@), ", "@)
            },
        ),
        StopPoll::Failed(error) => Some(error@),
        StopPoll::Disconnected => Some("stop worker disconnected"@),
    }
}

/// The target under the cursor, as a manifest that was loaded again has it.
pub open spec fn target_to_stop(panel: PanelText, targets: Seq<TargetText>) -> Option<TargetText> {
    match status_under_cursor(panel) {
        None => None,
        Some(status) => match found_target(targets, status.id) {
            Ok(target) => Some(target),
            Err(_) => None,
        },
    }
}

/// What an optional target says.
pub open spec fn optional_target(target: Option<&LaunchTarget>) -> Option<TargetText> {
    match target {
        Some(found) => Some(found@),
        None => None,
    }
}

impl PanelApp {
    /// Takes in whether the manifest could be loaded to open or start a target: whether to go
    /// on. The failure is shown where it could not.
    pub fn begin_open(&mut self, label: &str, failure: Option<String>) -> (result: bool)
        ensures
            result == (failure is None),
            final(self)@ == (PanelText {
                message: Some(
                    match failure {
                        Some(error) => error@,
                        None => label@ + ": open/start…"@,
                    },
                ),
                ..old(self)@
            }),
    {
        match failure {
            Some(error) => {
                self.message = Some(error);
                false
            },
            None => {
                let mut text = label.to_owned();
                text.append(": open/start…");
                self.message = Some(text);
                true
            },
        }
    }

    /// Takes in what came of opening or starting a target: the panel closes, or shows why not.
    pub fn finish_open(&mut self, failure: Option<String>) -> (result: PanelAction)
        ensures
            match failure {
                None => result@ == ActionText::Close && final(self)@ == old(self)@,
                Some(error) => result@ == ActionText::Nothing && final(self)@ == (PanelText {
                    message: Some(error@),
                    ..old(self)@
                }),
            },
    {
        match failure {
            None => PanelAction::Close,
            Some(error) => {
                self.message = Some(error);
                PanelAction::Nothing
            },
        }
    }

    /// Takes in the manifest, where it could be loaded, to stop the target under the cursor:
    /// the target that is to be stopped.
    pub fn start_stop<'a>(&mut self, config: Option<&'a PortboardConfig>) -> (result: Option<
        &'a LaunchTarget,
    >)
        ensures
            old(self)@.stopping ==> result is None && final(self)@ == old(self)@,
            !old(self)@.stopping ==> match config {
                None => result is None && final(self)@ == (PanelText {
                    message: Some("could not reload manifest to stop"@),
                    ..old(self)@
                }),
                Some(found) => {
                    let target = target_to_stop(old(self)@, target_texts(found.launch_targets@));
                    &&& optional_target(result) == target
                    &&& final(self)@ == (if target is Some {
                        PanelText {
                            message: Some(
                                status_under_cursor(old(self)@)->0.label + ": stopping…"@,
                            ),
                            stopping: true,
                            ..old(self)@
                        }
                    } else {
                        old(self)@
                    })
                },
            },
    {
        if self.stopping {
            return None;
        }
        match config {
            None => {
                self.message = Some("could not reload manifest to stop".to_owned());
                None
            },
            Some(found) => {
                let (id, mut text) = match self.selected_status() {
                    None => {
                        return None;
                    },
                    Some(status) => (status.id.0.clone(), status.label.clone()),
                };
                match configured_target(&found.launch_targets, id.as_str()) {
                    Err(_) => None,
                    Ok(target) => {
                        text.append(": stopping…");
                        self.message = Some(text);
                        self.stopping = true;
                        Some(target)
                    },
                }
            },
        }
    }

    /// Takes in what came of asking for the result of stopping a target: what is said of it.
    pub fn poll_stop(&mut self, polled: StopPoll) -> (result: Option<String>)
        ensures
            optional_text(result) == (if old(self)@.stopping {
                stop_words(polled)
            } else {
                None
            }),
            final(self)@ == (PanelText {
                stopping: old(self)@.stopping && polled is NothingYet,
                ..old(self)@
            }),
    {
        if !self.stopping {
            return None;
        }
        match polled {
            StopPoll::NothingYet => {
                return None;
            },
            _ => {},
        }
        self.stopping = false;
        match polled {
            StopPoll::NothingYet => None,
            StopPoll::Stopped(pids) => {
                if pids.len() == 0 {
                    Some("already stopped".to_owned())
                } else {
                    let mut text = "stopping pid ".to_owned();
                    let list = join(&decimals_of(&pids), ", ");
                    text.append(list.as_str());
                    Some(text)
                }
            },
            StopPoll::Failed(error) => Some(error),
            StopPoll::Disconnected => Some("stop worker disconnected".to_owned()),
        }
    }
}

/// How a piece of text is drawn.
#[derive(Clone, Copy, Debug, PartialEq, Eq, Structural)]
pub enum SpanStyle {
    Plain,
    DarkGray,
    Cyan,
    BoldCyan,
    Green,
    Red,
    Yellow,
    Reversed,
}

/// A piece of text on the panel.
#[derive(Debug, PartialEq, Eq)]
pub struct StyledSpan {
    pub text: String,
    pub style: SpanStyle,
}

/// What a piece of text on the panel is.
pub struct SpanText {
    pub text: Seq<char>,
    pub style: SpanStyle,
}

impl View for StyledSpan {
    type V = SpanText;

    open spec fn view(&self) -> SpanText {
        SpanText { text: self.text@, style: self.style }
    }
}

/// What the pieces of a line are.
pub open spec fn span_texts(line: Seq<StyledSpan>) -> Seq<SpanText> {
    Seq::new(line.len(), |i: int| line[i]@)
}

/// What the pieces of several lines are.
pub open spec fn line_texts(lines: Seq<Vec<StyledSpan>>) -> Seq<Seq<SpanText>> {
    Seq::new(lines.len(), |i: int| span_texts(lines[i]@))
}

/// A piece of text in a style.
pub open spec fn span(text: Seq<char>, style: SpanStyle) -> SpanText {
    SpanText { text, style }
}

fn push_span(line: &mut Vec<StyledSpan>, text: &str, style: SpanStyle)
    ensures
        span_texts(final(line)@) == span_texts(old(line)@).push(span(text@, style)),
{
    let ghost before = span_texts(line@);
    line.push(StyledSpan { text: text.to_owned(), style });
    proof {
        assert(span_texts(line@) =~= before.push(span(text@, style)));
    }
}

fn no_spans() -> (result: Vec<StyledSpan>)
    ensures
        span_texts(result@) == Seq::<SpanText>::empty(),
{
    let result: Vec<StyledSpan> = Vec::new();
    proof {
        assert(span_texts(result@) =~= Seq::<SpanText>::empty());
    }
    result
}

fn push_line(lines: &mut Vec<Vec<StyledSpan>>, line: Vec<StyledSpan>)
    ensures
        line_texts(final(lines)@) == line_texts(old(lines)@).push(span_texts(line@)),
{
    let ghost before = line_texts(lines@);
    lines.push(line);
    proof {
        assert(line_texts(lines@) =~= before.push(span_texts(line@)));
    }
}

fn no_lines() -> (result: Vec<Vec<StyledSpan>>)
    ensures
        line_texts(result@) == Seq::<Seq<SpanText>>::empty(),
{
    let result: Vec<Vec<StyledSpan>> = Vec::new();
    proof {
        assert(line_texts(result@) =~= Seq::<Seq<SpanText>>::empty());
    }
    result
}

/// Fills a value up with spaces.
pub fn pad(value: &str, width: usize) -> (result: String)
    ensures
        result@ == padded(value@, width as nat),
{
    pad_to(value, width)
}

/// Shortens a value to a width.
pub fn truncate(value: &str, width: usize) -> (result: String)
    ensures
        result@ == shortened(value@, width as nat),
{
    shorten_to(value, width)
}

/// Writes the line above the panes.
pub fn header_line(root: &str) -> (result: Vec<StyledSpan>)
    ensures
        span_texts(result@) == seq![
            span(" Portboard"@, SpanStyle::BoldCyan),
            span(" · "@ + root@, SpanStyle::DarkGray),
        ],
{
    let mut line = no_spans();
    push_span(&mut line, " Portboard", SpanStyle::BoldCyan);
    let mut place = " · ".to_owned();
    place.append(root);
    push_span(&mut line, place.as_str(), SpanStyle::DarkGray);
    proof {
        assert(span_texts(line@) =~= seq![
            span(" Portboard"@, SpanStyle::BoldCyan),
            span(" · "@ + root@, SpanStyle::DarkGray),
        ]);
    }
    line
}

/// The row for a process where there are no targets.
pub open spec fn process_row(entry: InventoryText) -> Seq<SpanText> {
    seq![
        span(padded(decimal(entry.pid as nat), 7), SpanStyle::Green),
        span(
            if entry.endpoints.len() == 0 {
                ""@
            } else {
                "  "@ + joined(ports_shown(entry.endpoints), " "@)
            },
            SpanStyle::Cyan,
        ),
        span("  "@ + shortened(joined(entry.argv, " "@), 80), SpanStyle::Plain),
    ]
}

/// The rows for the processes where there are no targets.
pub open spec fn process_rows(inventory: Option<Seq<InventoryText>>) -> Seq<Seq<SpanText>> {
    let entries = match inventory {
        Some(entries) => entries,
        None => Seq::empty(),
    };
    if entries.len() == 0 {
        seq![seq![span("no live processes in this worktree"@, SpanStyle::DarkGray)]]
    } else {
        Seq::new(entries.len(), |i: int| process_row(entries[i]))
    }
}

fn write_process_row(entry: &WorktreeProcessInventoryEntry) -> (result: Vec<StyledSpan>)
    ensures
        span_texts(result@) == process_row(entry@),
{
    proof {
        assert(entry@.endpoints.len() == entry.endpoints.len());
    }
    let digits = decimal_text(entry.pid as u64);
    let pid = pad(digits.as_str(), 7);
    let mut ports = "".to_owned();
    if entry.endpoints.len() > 0 {
        ports = "  ".to_owned();
        let listed = write_ports(&entry.endpoints);
        let list = join(&listed, " ");
        ports.append(list.as_str());
    }
    let command = join(&entry.argv, " ");
    let short = truncate(command.as_str(), 80);
    let mut argv = "  ".to_owned();
    argv.append(short.as_str());
    let mut line = no_spans();
    push_span(&mut line, pid.as_str(), SpanStyle::Green);
    push_span(&mut line, ports.as_str(), SpanStyle::Cyan);
    push_span(&mut line, argv.as_str(), SpanStyle::Plain);
    proof {
        assert(span_texts(line@) =~= process_row(entry@));
    }
    line
}

/// The word for the state of a target, and how it is drawn.
pub open spec fn state_span(status: StatusText) -> SpanText {
    match status.state {
        StateText::Stopped => span("stopped"@, SpanStyle::DarkGray),
        StateText::Running(_) => if status.duplicate {
            span("duplicate!"@, SpanStyle::Red)
        } else {
            span("running"@, SpanStyle::Green)
        },
    }
}

/// The process ids of some runs, as the panel shows them.
pub open spec fn pids_words(runs: Seq<RunText>) -> Seq<char> {
    "  pid "@ + joined(decimals(run_pids(runs)), ", "@)
}

fn write_pids(runs: &Vec<LaunchTargetProcess>) -> (result: String)
    ensures
        result@ == pids_words(run_texts(runs@)),
{
    let mut text = "  pid ".to_owned();
    let list = join(&decimals_of(&pids_of_runs(runs)), ", ");
    text.append(list.as_str());
    text
}

/// The row for a target.
pub open spec fn target_row(status: StatusText) -> Seq<SpanText> {
    seq![
        span(padded(status.label, 24), SpanStyle::Plain),
        span(
            if status.metadata_error is Some {
                "warning! "@
            } else {
                ""@
            },
            SpanStyle::Yellow,
        ),
        state_span(status),
        span(
            match status.state {
                StateText::Stopped => ""@,
                StateText::Running(runs) => pids_words(runs),
            },
            SpanStyle::DarkGray,
        ),
    ]
}

/// The rows of the first list.
pub open spec fn first_list(panel: PanelText) -> Seq<Seq<SpanText>> {
    if shows_targets(panel) {
        Seq::new(
            panel.inspection->0.statuses.len(),
            |i: int| target_row(panel.inspection->0.statuses[i]),
        )
    } else {
        process_rows(panel.inventory)
    }
}

fn write_target_row(status: &CurrentLaunchTargetStatus) -> (result: Vec<StyledSpan>)
    ensures
        span_texts(result@) == target_row(status@),
{
    let label = pad(status.label.as_str(), 24);
    let mut line = no_spans();
    push_span(&mut line, label.as_str(), SpanStyle::Plain);
    if status.metadata_error.is_some() {
        push_span(&mut line, "warning! ", SpanStyle::Yellow);
    } else {
        push_span(&mut line, "", SpanStyle::Yellow);
    }
    match &status.state {
        LaunchTargetRuntimeState::Stopped => {
            push_span(&mut line, "stopped", SpanStyle::DarkGray);
            push_span(&mut line, "", SpanStyle::DarkGray);
        },
        LaunchTargetRuntimeState::Running { processes } => {
            if status.duplicate {
                push_span(&mut line, "duplicate!", SpanStyle::Red);
            } else {
                push_span(&mut line, "running", SpanStyle::Green);
            }
            let pids = write_pids(processes);
            push_span(&mut line, pids.as_str(), SpanStyle::DarkGray);
        },
    }
    proof {
        assert(span_texts(line@) =~= target_row(status@));
    }
    line
}

/// The rows of the detail pane, as they are drawn.
pub open spec fn endpoint_list(rows: Seq<RowText>) -> Seq<Seq<SpanText>> {
    Seq::new(
        rows.len(),
        |i: int|
            seq![
                span(padded(rows[i].label, 8), SpanStyle::Cyan),
                span("  "@ + rows[i].url, SpanStyle::Plain),
            ],
    )
}

/// The row for a port, as it is drawn.
pub open spec fn port_row(row: PortText) -> Seq<SpanText> {
    let start = seq![
        span(padded(row.label, 7), SpanStyle::Cyan),
        span("  "@ + row.url, SpanStyle::Plain),
        span("  pid "@ + decimal(row.pid as nat), SpanStyle::DarkGray),
    ];
    match row.target {
        Some(target) => start.push(span(" · "@ + target, SpanStyle::Green)),
        None => start,
    }
}

/// The rows of the list of ports, as they are drawn.
pub open spec fn port_list(rows: Seq<PortText>) -> Seq<Seq<SpanText>> {
    Seq::new(rows.len(), |i: int| port_row(rows[i]))
}

/// The lines on the state of a target.
pub open spec fn state_line(status: StatusText) -> Seq<SpanText> {
    match status.state {
        StateText::Stopped => seq![
            span("state"@, SpanStyle::DarkGray),
            span("  stopped"@, SpanStyle::Plain),
        ],
        StateText::Running(runs) => seq![
            span("state"@, SpanStyle::DarkGray),
            if status.duplicate {
                span(
                    "  running · DUPLICATE ("@ + decimal(runs.len()) + " instances)"@,
                    SpanStyle::Red,
                )
            } else {
                span("  running"@, SpanStyle::Green)
            },
            span(pids_words(runs), SpanStyle::DarkGray),
        ],
    }
}

/// The lines of the pane on the target under the cursor.
pub open spec fn info_list(panel: PanelText) -> Seq<Seq<SpanText>> {
    match status_under_cursor(panel) {
        Some(status) => {
            let warning = match status.metadata_error {
                Some(error) => seq![seq![span(error, SpanStyle::Yellow)]],
                None => Seq::empty(),
            };
            warning + seq![
                state_line(status),
                seq![
                    span("argv "@, SpanStyle::DarkGray),
                    span(" "@ + joined(status.argv, " "@), SpanStyle::Plain),
                ],
            ]
        },
        None => match panel.load_error {
            Some(error) => seq![seq![span(error, SpanStyle::Red)]],
            None => seq![
                seq![
                    span(
                        "No launch targets; configure portboard.toml to manage runs."@,
                        SpanStyle::Plain,
                    ),
                ],
            ],
        },
    }
}

/// The title of the pane on the target under the cursor.
pub open spec fn info_title(panel: PanelText) -> Seq<char> {
    match status_under_cursor(panel) {
        Some(status) => " "@ + status.label + " "@,
        None => " detail "@,
    }
}

/// The pane on the target under the cursor.
#[derive(Debug, PartialEq, Eq)]
pub struct InfoPane {
    pub title: String,
    pub lines: Vec<Vec<StyledSpan>>,
}

fn write_state_line(status: &CurrentLaunchTargetStatus) -> (result: Vec<StyledSpan>)
    ensures
        span_texts(result@) == state_line(status@),
{
    let mut line = no_spans();
    push_span(&mut line, "state", SpanStyle::DarkGray);
    match &status.state {
        LaunchTargetRuntimeState::Stopped => {
            push_span(&mut line, "  stopped", SpanStyle::Plain);
        },
        LaunchTargetRuntimeState::Running { processes } => {
            proof {
                assert(run_texts(processes@).len() == processes.len());
            }
            if status.duplicate {
                let mut words = "  running · DUPLICATE (".to_owned();
                push_decimal(&mut words, processes.len() as u64);
                words.append(" instances)");
                push_span(&mut line, words.as_str(), SpanStyle::Red);
            } else {
                push_span(&mut line, "  running", SpanStyle::Green);
            }
            let pids = write_pids(processes);
            push_span(&mut line, pids.as_str(), SpanStyle::DarkGray);
        },
    }
    proof {
        assert(span_texts(line@) =~= state_line(status@));
    }
    line
}

/// What the panel says at its foot on warnings, where there are any.
pub open spec fn warning_words(panel: PanelText) -> Option<Seq<char>> {
    let warnings = match panel.inspection {
        Some(inspection) => joined(inspection.findings, "; "@),
        None => Seq::empty(),
    };
    let error = match panel.load_error {
        Some(error) => error,
        None => ""@,
    };
    if warnings.len() > 0 || panel.load_error is Some {
        Some(" warning: "@ + error + warnings)
    } else {
        None
    }
}

/// The name of the focused list, as the foot of the panel shows it.
pub open spec fn shown_focus(panel: PanelText) -> Seq<char> {
    if panel.focus == Focus::Targets && !shows_targets(panel) {
        "processes"@
    } else {
        focus_name(panel.focus)
    }
}

/// The keys, as the foot of the panel shows them.
pub const KEY_HINTS: &'static str =
    "enter open · o open url · y copy · s stop · r refresh · tab lists · q/esc close";

/// The lines at the foot of the panel: warnings, the message, the focused list and the keys.
pub open spec fn footer_list(panel: PanelText) -> Seq<Seq<SpanText>> {
    let warning = match warning_words(panel) {
        Some(words) => seq![seq![span(words, SpanStyle::Yellow)]],
        None => Seq::empty(),
    };
    let message = match panel.message {
        Some(message) => seq![seq![span(" "@ + message, SpanStyle::Cyan)]],
        None => Seq::empty(),
    };
    warning + message + seq![
        seq![span(" focus "@ + shown_focus(panel) + " · "@, SpanStyle::Cyan)],
        seq![span(" "@ + KEY_HINTS@, SpanStyle::DarkGray)],
    ]
}

fn push_single(lines: &mut Vec<Vec<StyledSpan>>, text: &str, style: SpanStyle)
    ensures
        line_texts(final(lines)@) == line_texts(old(lines)@).push(seq![span(text@, style)]),
{
    let mut line = no_spans();
    push_span(&mut line, text, style);
    proof {
        assert(span_texts(line@) =~= seq![span(text@, style)]);
    }
    push_line(lines, line);
}

impl PanelApp {
    /// The rows for the processes where there are no targets.
    pub fn inventory_items(&self) -> (result: Vec<Vec<StyledSpan>>)
        ensures
            line_texts(result@) == process_rows(self@.inventory),
    {
        let mut lines = no_lines();
        match &self.inventory {
            Some(entries) => {
                let ghost all = inventory_texts(entries@);
                proof {
                    assert(all.len() == entries.len());
                }
                if entries.len() > 0 {
                    let mut index: usize = 0;
                    while index < entries.len()
                        invariant
                            0 < entries.len(),
                            index <= entries.len(),
                            all == inventory_texts(entries@),
                            line_texts(lines@) == process_rows(Some(all)).take(index as int),
                        decreases entries.len() - index,
                    {
                        proof {
                            assert(all.len() == entries.len());
                            assert(all[index as int] == entries@[index as int]@);
                        }
                        let ghost before = line_texts(lines@);
                        let line = write_process_row(&entries[index]);
                        push_line(&mut lines, line);
                        index += 1;
                        proof {
                            assert(line_texts(lines@) == before.push(process_row(all[index - 1])));
                            assert(line_texts(lines@) =~= process_rows(Some(all)).take(
                                index as int,
                            ));
                        }
                    }
                    proof {
                        assert(all.len() == entries.len());
                        assert(line_texts(lines@) =~= process_rows(Some(all)));
                    }
                    return lines;
                }
            },
            None => {},
        }
        push_single(&mut lines, "no live processes in this worktree", SpanStyle::DarkGray);
        proof {
            assert(line_texts(lines@) =~= process_rows(self@.inventory));
        }
        lines
    }

    /// The rows of the first list.
    pub fn target_items(&self) -> (result: Vec<Vec<StyledSpan>>)
        ensures
            line_texts(result@) == first_list(self@),
    {
        if !self.has_targets() {
            return self.inventory_items();
        }
        let mut lines = no_lines();
        match &self.inspection {
            None => lines,
            Some(inspection) => {
                let ghost all = status_texts(inspection.statuses@);
                let ghost rows = Seq::new(all.len(), |i: int| target_row(all[i]));
                let mut index: usize = 0;
                while index < inspection.statuses.len()
                    invariant
                        index <= inspection.statuses.len(),
                        all == status_texts(inspection.statuses@),
                        rows == Seq::new(all.len(), |i: int| target_row(all[i])),
                        line_texts(lines@) == rows.take(index as int),
                    decreases inspection.statuses.len() - index,
                {
                    proof {
                        assert(all[index as int] == inspection.statuses@[index as int]@);
                    }
                    let line = write_target_row(&inspection.statuses[index]);
                    push_line(&mut lines, line);
                    index += 1;
                    proof {
                        assert(line_texts(lines@) =~= rows.take(index as int));
                    }
                }
                proof {
                    assert(line_texts(lines@) =~= rows);
                    assert(rows =~= first_list(self@));
                }
                lines
            },
        }
    }

    /// The rows of the detail pane.
    pub fn endpoint_items(&self) -> (result: Vec<Vec<StyledSpan>>)
        ensures
            line_texts(result@) == endpoint_list(rows_of(self@)),
    {
        let rows = self.endpoint_rows();
        let ghost all = row_texts(rows@);
        let mut lines = no_lines();
        let mut index: usize = 0;
        while index < rows.len()
            invariant
                index <= rows.len(),
                all == row_texts(rows@),
                line_texts(lines@) == endpoint_list(all).take(index as int),
            decreases rows.len() - index,
        {
            proof {
                assert(all[index as int] == rows@[index as int]@);
            }
            let label = pad(rows[index].label.as_str(), 8);
            let mut url = "  ".to_owned();
            url.append(rows[index].url.as_str());
            let mut line = no_spans();
            push_span(&mut line, label.as_str(), SpanStyle::Cyan);
            push_span(&mut line, url.as_str(), SpanStyle::Plain);
            proof {
                assert(span_texts(line@) =~= endpoint_list(all)[index as int]);
            }
            push_line(&mut lines, line);
            index += 1;
            proof {
                assert(line_texts(lines@) =~= endpoint_list(all).take(index as int));
            }
        }
        proof {
            assert(line_texts(lines@) =~= endpoint_list(all));
        }
        lines
    }

    /// The rows of the list of ports.
    pub fn port_items(&self) -> (result: Vec<Vec<StyledSpan>>)
        ensures
            line_texts(result@) == port_list(ports_of(self@.inventory)),
    {
        let rows = self.port_rows();
        let ghost all = port_texts(rows@);
        let mut lines = no_lines();
        let mut index: usize = 0;
        while index < rows.len()
            invariant
                index <= rows.len(),
                all == port_texts(rows@),
                line_texts(lines@) == port_list(all).take(index as int),
            decreases rows.len() - index,
        {
            let row = &rows[index];
            proof {
                assert(all[index as int] == row@);
            }
            let label = pad(row.label.as_str(), 7);
            let mut url = "  ".to_owned();
            url.append(row.url.as_str());
            let mut pid = "  pid ".to_owned();
            push_decimal(&mut pid, row.pid as u64);
            let mut line = no_spans();
            push_span(&mut line, label.as_str(), SpanStyle::Cyan);
            push_span(&mut line, url.as_str(), SpanStyle::Plain);
            push_span(&mut line, pid.as_str(), SpanStyle::DarkGray);
            match &row.target {
                Some(target) => {
                    let mut claim = " · ".to_owned();
                    claim.append(target.as_str());
                    push_span(&mut line, claim.as_str(), SpanStyle::Green);
                },
                None => {},
            }
            proof {
                assert(span_texts(line@) =~= port_row(row@));
            }
            push_line(&mut lines, line);
            index += 1;
            proof {
                assert(line_texts(lines@) =~= port_list(all).take(index as int));
            }
        }
        proof {
            assert(line_texts(lines@) =~= port_list(all));
        }
        lines
    }

    /// The pane on the target under the cursor.
    pub fn info_paragraph(&self) -> (result: InfoPane)
        ensures
            result.title@ == info_title(self@),
            line_texts(result.lines@) == info_list(self@),
    {
        let mut lines = no_lines();
        match self.selected_status() {
            Some(status) => {
                match &status.metadata_error {
                    Some(error) => {
                        push_single(&mut lines, error.as_str(), SpanStyle::Yellow);
                    },
                    None => {},
                }
                let state = write_state_line(status);
                push_line(&mut lines, state);
                let mut argv = " ".to_owned();
                let command = join(&status.argv, " ");
                argv.append(command.as_str());
                let mut line = no_spans();
                push_span(&mut line, "argv ", SpanStyle::DarkGray);
                push_span(&mut line, argv.as_str(), SpanStyle::Plain);
                proof {
                    assert(span_texts(line@) =~= seq![
                        span("argv "@, SpanStyle::DarkGray),
                        span(argv@, SpanStyle::Plain),
                    ]);
                }
                push_line(&mut lines, line);
                let mut title = " ".to_owned();
                title.append(status.label.as_str());
                title.append(" ");
                proof {
                    assert(line_texts(lines@) =~= info_list(self@));
                }
                InfoPane { title, lines }
            },
            None => {
                match &self.load_error {
                    Some(error) => {
                        push_single(&mut lines, error.as_str(), SpanStyle::Red);
                    },
                    None => {
                        push_single(
                            &mut lines,
                            "No launch targets; configure portboard.toml to manage runs.",
                            SpanStyle::Plain,
                        );
                    },
                }
                proof {
                    assert(line_texts(lines@) =~= info_list(self@));
                }
                InfoPane { title: " detail ".to_owned(), lines }
            },
        }
    }

    fn warning(&self) -> (result: Option<String>)
        ensures
            optional_text(result) == warning_words(self@),
    {
        let warnings = match &self.inspection {
            Some(inspection) => join(&inspection.findings, "; "),
            None => String::new(),
        };
        let mut text = " warning: ".to_owned();
        match &self.load_error {
            Some(error) => {
                text.append(error.as_str());
            },
            None => {
                text.append("");
            },
        }
        if warnings.as_str().unicode_len() > 0 || self.load_error.is_some() {
            text.append(warnings.as_str());
            Some(text)
        } else {
            None
        }
    }

    /// The lines at the foot of the panel.
    pub fn footer(&self) -> (result: Vec<Vec<StyledSpan>>)
        ensures
            line_texts(result@) == footer_list(self@),
    {
        let mut lines = no_lines();
        match self.warning() {
            Some(words) => {
                push_single(&mut lines, words.as_str(), SpanStyle::Yellow);
            },
            None => {},
        }
        match &self.message {
            Some(message) => {
                let mut text = " ".to_owned();
                text.append(message.as_str());
                push_single(&mut lines, text.as_str(), SpanStyle::Cyan);
            },
            None => {},
        }
        let mut focus = " focus ".to_owned();
        if self.focus == Focus::Targets && !self.has_targets() {
            focus.append("processes");
        } else {
            focus.append(self.focus.name());
        }
        focus.append(" · ");
        push_single(&mut lines, focus.as_str(), SpanStyle::Cyan);
        let mut hints = " ".to_owned();
        hints.append(KEY_HINTS);
        push_single(&mut lines, hints.as_str(), SpanStyle::DarkGray);
        proof {
            assert(line_texts(lines@) =~= footer_list(self@));
        }
        lines
    }

    /// The title of the first list.
    pub fn first_title(&self) -> (result: &'static str)
        ensures
            result@ == (if shows_targets(self@) {
                " targets "@
            } else {
                " processes "@
            }),
    {
        if self.has_targets() {
            " targets "
        } else {
            " processes "
        }
    }

    /// The title of the list of ports.
    pub fn ports_title(&self) -> (result: String)
        ensures
            result@ == " ports ("@ + decimal(ports_of(self@.inventory).len()) + ") "@,
    {
        let rows = self.port_rows();
        proof {
            assert(port_texts(rows@).len() == rows@.len());
        }
        let mut title = " ports (".to_owned();
        push_decimal(&mut title, rows.len() as u64);
        title.append(") ");
        title
    }

    /// Border color for a pane: bright cyan when focused, dimmed otherwise.
    pub fn pane_border_style(&self, focus: Focus) -> (result: SpanStyle)
        ensures
            result == (if self@.focus == focus {
                SpanStyle::Cyan
            } else {
                SpanStyle::DarkGray
            }),
    {
        if self.focus == focus {
            SpanStyle::Cyan
        } else {
            SpanStyle::DarkGray
        }
    }

    /// Title style for a pane: bold cyan when focused, dimmed otherwise.
    pub fn pane_title_style(&self, focus: Focus) -> (result: SpanStyle)
        ensures
            result == (if self@.focus == focus {
                SpanStyle::BoldCyan
            } else {
                SpanStyle::DarkGray
            }),
    {
        if self.focus == focus {
            SpanStyle::BoldCyan
        } else {
            SpanStyle::DarkGray
        }
    }

    /// Selected-row style: reversed in the focused pane so the cursor pops,
    /// subdued dark gray elsewhere so it stays visible without competing.
    pub fn pane_highlight_style(&self, focus: Focus) -> (result: SpanStyle)
        ensures
            result == (if self@.focus == focus {
                SpanStyle::Reversed
            } else {
                SpanStyle::DarkGray
            }),
    {
        if self.focus == focus {
            SpanStyle::Reversed
        } else {
            SpanStyle::DarkGray
        }
    }

    /// The mark before the selected row of a pane.
    pub fn highlight_symbol(&self, focus: Focus) -> (result: &'static str)
        ensures
            result@ == (if self@.focus == focus {
                "▸ "@
            } else {
                "  "@
            }),
    {
        if self.focus == focus {
            "▸ "
        } else {
            "  "
        }
    }
}

/// The direction in which an area is split.
#[derive(Clone, Copy, Debug, PartialEq, Eq, Structural)]
pub enum SplitDirection {
    Vertical,
    Horizontal,
}

/// How large a part of an area is wanted.
#[derive(Clone, Copy, Debug, PartialEq, Eq, Structural)]
pub enum PartSize {
    Length(u16),
    Min(u16),
    Percentage(u16),
}

/// How many cells an area has from a start on, as far as cells have numbers.
pub open spec fn reach(start: u16, size: u16) -> int {
    if start + size <= u16::MAX {
        size as int
    } else {
        u16::MAX - start
    }
}

/// How many cells of an area a direction offers for a split.
pub open spec fn extent(area: Area, direction: SplitDirection) -> int {
    match direction {
        SplitDirection::Vertical => reach(area.y, area.height),
        SplitDirection::Horizontal => reach(area.x, area.width),
    }
}

/// How many cells a part takes in a direction.
pub open spec fn length_of(part: Area, direction: SplitDirection) -> int {
    match direction {
        SplitDirection::Vertical => part.height as int,
        SplitDirection::Horizontal => part.width as int,
    }
}

/// The part of an area that starts so many cells behind its start and takes so many cells, as
/// large as the area across the direction.
pub open spec fn part_at(area: Area, direction: SplitDirection, offset: int, length: int) -> Area {
    match direction {
        SplitDirection::Vertical => Area {
            x: area.x,
            y: (area.y + offset) as u16,
            width: area.width,
            height: length as u16,
        },
        SplitDirection::Horizontal => Area {
            x: (area.x + offset) as u16,
            y: area.y,
            width: length as u16,
            height: area.height,
        },
    }
}

/// An area cut in two, the first part so many cells long.
pub open spec fn cut_in_two(area: Area, direction: SplitDirection, first: int) -> Seq<Area> {
    seq![
        part_at(area, direction, 0, first),
        part_at(area, direction, first, extent(area, direction) - first),
    ]
}

/// An area cut in three, the first and the last part so many cells long.
pub open spec fn cut_in_three(
    area: Area,
    direction: SplitDirection,
    first: int,
    last: int,
) -> Seq<Area> {
    let whole = extent(area, direction);
    seq![
        part_at(area, direction, 0, first),
        part_at(area, direction, first, whole - first - last),
        part_at(area, direction, whole - last, last),
    ]
}

/// A length, or all there is where that is less.
pub open spec fn at_most(length: int, whole: int) -> int {
    if length <= whole {
        length
    } else {
        whole
    }
}

/// So many hundredths of a length, to the nearest cell; a half counts up.
pub open spec fn share(whole: int, percent: int) -> int {
    (whole * percent + 50) / 100
}

/// Whether two lengths are what two wanted ones come to: themselves where they fit, and
/// otherwise all there is, neither longer than wanted.
pub open spec fn shares_ends(
    whole: int,
    wanted_first: int,
    wanted_last: int,
    first: int,
    last: int,
) -> bool {
    if wanted_first + wanted_last <= whole {
        first == wanted_first && last == wanted_last
    } else {
        0 <= first <= wanted_first && 0 <= last <= wanted_last && first + last == whole
    }
}

/// Whether a part reaches over the whole of an area across the direction of a split.
pub open spec fn spans(part: Area, area: Area, direction: SplitDirection) -> bool {
    match direction {
        SplitDirection::Vertical => part.x == area.x && part.width == area.width,
        SplitDirection::Horizontal => part.y == area.y && part.height == area.height,
    }
}

/// Where the parts of a split meet, for the ways in which areas are split here: a fixed length
/// before the rest, two shares of the whole, and the rest between two fixed lengths.
pub open spec fn meets(
    parts: Seq<Area>,
    area: Area,
    direction: SplitDirection,
    sizes: Seq<PartSize>,
) -> bool {
    let whole = extent(area, direction);
    if sizes.len() == 2 {
        match (sizes[0], sizes[1]) {
            (PartSize::Length(first), PartSize::Min(least)) => least == 0 ==> parts == cut_in_two(
                area,
                direction,
                at_most(first as int, whole),
            ),
            (PartSize::Percentage(first), PartSize::Percentage(last)) => first + last == 100
                ==> parts == cut_in_two(area, direction, share(whole, first as int)),
            _ => true,
        }
    } else if sizes.len() == 3 {
        match (sizes[0], sizes[1], sizes[2]) {
            (PartSize::Length(first), PartSize::Min(least), PartSize::Length(last)) => {
                let top = length_of(parts[0], direction);
                let bottom = length_of(parts[2], direction);
                least == 0 ==> shares_ends(whole, first as int, last as int, top, bottom) && parts
                    == cut_in_three(area, direction, top, bottom)
            },
            _ => true,
        }
    } else {
        true
    }
}

/// `Layout::split` of the `ratatui` crate, with the flex that it has unless told otherwise: one
/// part for each wanted size, each as large as the area across the direction of the split. The
/// parts start where the area starts and leave no gap: of the wishes that its solver weighs,
/// those for empty gaps count most, then lengths, then percentages, then the growth of what has
/// only a least size, and least of all free space behind the last part. For a fixed length
/// before the rest, two percentages that make a whole, and the rest between two fixed lengths,
/// that decides where the parts meet. Left unsaid is how two fixed lengths share an area that
/// is too small for both, where the solver finds several answers equally good, and where the
/// parts meet for any other list of sizes.
#[verifier::external_body]
fn split_area(area: Area, direction: SplitDirection, sizes: &Vec<PartSize>) -> (result: Vec<Area>)
    ensures
        result@.len() == sizes@.len(),
        forall|i: int|
            0 <= i < result@.len() ==> spans(#[trigger] result@[i], area, direction),
        meets(result@, area, direction, sizes@),
{
    let direction = match direction {
        SplitDirection::Vertical => Direction::Vertical,
        SplitDirection::Horizontal => Direction::Horizontal,
    };
    let constraints = sizes.iter().map(|size| match size {
        PartSize::Length(length) => Constraint::Length(*length),
        PartSize::Min(least) => Constraint::Min(*least),
        PartSize::Percentage(share) => Constraint::Percentage(*share),
    });
    let whole = Rect { x: area.x, y: area.y, width: area.width, height: area.height };
    let parts = Layout::new(direction, constraints).split(whole);
    parts.iter().map(|p| Area { x: p.x, y: p.y, width: p.width, height: p.height }).collect()
}

/// The rows within the border of a pane.
pub open spec fn within_border(block: Area) -> Area {
    Area {
        x: (block.x + 1) as u16,
        y: (block.y + 1) as u16,
        width: if block.width > 2 {
            (block.width - 2) as u16
        } else {
            0
        },
        height: if block.height > 2 {
            (block.height - 2) as u16
        } else {
            0
        },
    }
}

/// Whether the rows within the border of a pane have numbers.
pub open spec fn has_border(block: Area) -> bool {
    block.x < u16::MAX && block.y < u16::MAX
}

pub fn inner_rect(block: Area) -> (result: Area)
    requires
        has_border(block),
    ensures
        result == within_border(block),
{
    Area {
        x: block.x + 1,
        y: block.y + 1,
        width: block.width.saturating_sub(2),
        height: block.height.saturating_sub(2),
    }
}

/// The parts that the panel draws on, out of the four splits; nothing where a list would start
/// where cells have no numbers.
pub open spec fn arranged(
    rows: Seq<Area>,
    left: Seq<Area>,
    right: Seq<Area>,
) -> Option<Areas> {
    if has_border(left[0]) && has_border(left[1]) && has_border(right[1]) {
        Some(
            Areas {
                header: rows[0],
                footer: rows[2],
                targets_block: left[0],
                targets: within_border(left[0]),
                ports_block: left[1],
                ports: within_border(left[1]),
                info_block: right[0],
                endpoints_block: right[1],
                endpoints: within_border(right[1]),
            },
        )
    } else {
        None
    }
}

/// Arranges the parts that the panel draws on: `rows` are the header, the body and the footer,
/// `left` the targets above the ports, `right` the detail header above the endpoints.
pub fn arrange(rows: &Vec<Area>, left: &Vec<Area>, right: &Vec<Area>) -> (result: Option<Areas>)
    requires
        rows@.len() == 3,
        left@.len() == 2,
        right@.len() == 2,
    ensures
        result == arranged(rows@, left@, right@),
{
    let in_numbers = left[0].x < u16::MAX && left[0].y < u16::MAX && left[1].x < u16::MAX
        && left[1].y < u16::MAX && right[1].x < u16::MAX && right[1].y < u16::MAX;
    if !in_numbers {
        return None;
    }
    Some(
        Areas {
            header: rows[0],
            footer: rows[2],
            targets_block: left[0],
            targets: inner_rect(left[0]),
            ports_block: left[1],
            ports: inner_rect(left[1]),
            info_block: right[0],
            endpoints_block: right[1],
            endpoints: inner_rect(right[1]),
        },
    )
}

/// The sizes of the header, the body and the footer.
pub fn row_sizes() -> (result: Vec<PartSize>)
    ensures
        result@ == seq![PartSize::Length(1), PartSize::Min(0), PartSize::Length(3)],
{
    let mut sizes: Vec<PartSize> = Vec::new();
    sizes.push(PartSize::Length(1));
    sizes.push(PartSize::Min(0));
    sizes.push(PartSize::Length(3));
    proof {
        assert(sizes@ =~= seq![PartSize::Length(1), PartSize::Min(0), PartSize::Length(3)]);
    }
    sizes
}

/// The sizes of the left column and the detail column.
pub fn column_sizes() -> (result: Vec<PartSize>)
    ensures
        result@ == seq![PartSize::Percentage(34), PartSize::Percentage(66)],
{
    let mut sizes: Vec<PartSize> = Vec::new();
    sizes.push(PartSize::Percentage(34));
    sizes.push(PartSize::Percentage(66));
    proof {
        assert(sizes@ =~= seq![PartSize::Percentage(34), PartSize::Percentage(66)]);
    }
    sizes
}

/// The sizes of the targets and the ports.
pub fn left_sizes() -> (result: Vec<PartSize>)
    ensures
        result@ == seq![PartSize::Percentage(50), PartSize::Percentage(50)],
{
    let mut sizes: Vec<PartSize> = Vec::new();
    sizes.push(PartSize::Percentage(50));
    sizes.push(PartSize::Percentage(50));
    proof {
        assert(sizes@ =~= seq![PartSize::Percentage(50), PartSize::Percentage(50)]);
    }
    sizes
}

/// The sizes of the detail header and the endpoints.
pub fn right_sizes() -> (result: Vec<PartSize>)
    ensures
        result@ == seq![PartSize::Length(4), PartSize::Min(0)],
{
    let mut sizes: Vec<PartSize> = Vec::new();
    sizes.push(PartSize::Length(4));
    sizes.push(PartSize::Min(0));
    proof {
        assert(sizes@ =~= seq![PartSize::Length(4), PartSize::Min(0)]);
    }
    sizes
}

/// Whether a header and a footer have their heights: one row and three, or all rows of a
/// terminal that has fewer.
pub open spec fn heads_and_foots(area: Area, header: int, footer: int) -> bool {
    shares_ends(extent(area, SplitDirection::Vertical), 1, 3, header, footer)
}

/// The parts that the panel draws on, with a header and a footer of some heights: between them
/// the left column with the targets above the ports, and the detail column with the endpoints
/// below the detail header; nothing where a list would start where cells have no numbers.
pub open spec fn panes(area: Area, header: int, footer: int) -> Option<Areas> {
    let rows = cut_in_three(area, SplitDirection::Vertical, header, footer);
    let columns = cut_in_two(
        rows[1],
        SplitDirection::Horizontal,
        share(extent(rows[1], SplitDirection::Horizontal), 34),
    );
    let left = cut_in_two(
        columns[0],
        SplitDirection::Vertical,
        share(extent(columns[0], SplitDirection::Vertical), 50),
    );
    let right = cut_in_two(
        columns[1],
        SplitDirection::Vertical,
        at_most(4, extent(columns[1], SplitDirection::Vertical)),
    );
    arranged(rows, left, right)
}

/// Splits the terminal into a header, body, and a fixed-height footer. The
/// body is then split into a left column (targets above the always-visible
/// worktree-wide ports list) and a right detail column, whose endpoints list
/// occupies the space below the detail header.
pub fn layout_areas(area: Area) -> (result: Option<Areas>)
    ensures
        exists|header: int, footer: int| #[trigger]
            heads_and_foots(area, header, footer) && result == panes(area, header, footer),
        area.x + area.width < u16::MAX && area.y + area.height < u16::MAX ==> result is Some,
{
    let rows = split_area(area, SplitDirection::Vertical, &row_sizes());
    let columns = split_area(rows[1], SplitDirection::Horizontal, &column_sizes());
    let left = split_area(columns[0], SplitDirection::Vertical, &left_sizes());
    let right = split_area(columns[1], SplitDirection::Vertical, &right_sizes());
    proof {
        let header = length_of(rows@[0], SplitDirection::Vertical);
        let footer = length_of(rows@[2], SplitDirection::Vertical);
        assert(heads_and_foots(area, header, footer));
        assert(arranged(rows@, left@, right@) == panes(area, header, footer));
    }
    arrange(&rows, &left, &right)
}

/// Whether a cell lies in a part of the terminal.
pub open spec fn covers(part: Area, x: int, y: int) -> bool {
    part.x <= x < part.x + part.width && part.y <= y < part.y + part.height
}

/// The number of a truth: one where it holds.
pub open spec fn counted(holds: bool) -> int {
    if holds {
        1
    } else {
        0
    }
}

/// The panes cover the terminal without gap or overlap: every cell of it lies in exactly one of
/// the header, the footer, and the four panes, and no pane reaches beyond it.
pub proof fn panes_tile_the_terminal(area: Area, header: int, footer: int, x: int, y: int)
    requires
        area.x + area.width <= u16::MAX,
        area.y + area.height <= u16::MAX,
        heads_and_foots(area, header, footer),
    ensures
        panes(area, header, footer) matches Some(areas) ==> counted(covers(areas.header, x, y))
            + counted(covers(areas.footer, x, y)) + counted(covers(areas.targets_block, x, y))
            + counted(covers(areas.ports_block, x, y)) + counted(covers(areas.info_block, x, y))
            + counted(covers(areas.endpoints_block, x, y)) == counted(covers(area, x, y)),
{
}

/// On a terminal with room for them, the header is the first row, the footer the last three
/// rows, and the detail header four rows high where that many are left.
pub proof fn header_and_footer_are_fixed(area: Area, header: int, footer: int)
    requires
        area.x + area.width <= u16::MAX,
        area.y + area.height <= u16::MAX,
        area.height >= 4,
        heads_and_foots(area, header, footer),
    ensures
        panes(area, header, footer) matches Some(areas) ==> {
            &&& areas.header == (Area { x: area.x, y: area.y, width: area.width, height: 1 })
            &&& areas.footer == (Area {
                x: area.x,
                y: (area.y + area.height - 3) as u16,
                width: area.width,
                height: 3,
            })
            &&& area.height >= 8 ==> areas.info_block.height == 4
        },
{
}

/// The ports are those of all listeners of all processes, each with the process that owns it, the
/// first target that claims that process, and the URL by which the listener is reached.
pub proof fn every_listener_is_a_port(entries: Seq<InventoryText>, count: int, row: PortText)
    requires
        0 <= count <= entries.len(),
    ensures
        listed_ports(entries, count).contains(row) <==> exists|i: int, k: int|
            0 <= i < count && 0 <= k < entries[i].endpoints.len() && #[trigger] is_port_of(
                row,
                entries[i],
                k,
            ),
        ports_of(None).len() == 0,
    decreases count,
{
    if count > 0 {
        let last = count - 1;
        every_listener_is_a_port(entries, last, row);
        let before = listed_ports(entries, last);
        let added = entry_ports(entries[last]);
        let after = listed_ports(entries, count);
        assert(after == before + added);
        assert forall|k: int| 0 <= k < added.len() && is_port_of(
            row,
            entries[last],
            k,
        ) implies #[trigger] added[k] == row by {}
        if before.contains(row) {
            let at = choose|at: int| 0 <= at < before.len() && before[at] == row;
            assert(after[at] == row);
            let (i, k) = choose|i: int, k: int|
                0 <= i < last && 0 <= k < entries[i].endpoints.len() && #[trigger] is_port_of(
                    row,
                    entries[i],
                    k,
                );
            assert(is_port_of(row, entries[i], k));
        } else {
            if after.contains(row) {
                let at = choose|at: int| 0 <= at < after.len() && after[at] == row;
                if at < before.len() {
                    assert(before[at] == row);
                }
                let k = at - before.len();
                assert(added[k] == row);
                assert(is_port_of(row, entries[last], k));
            }
            assert forall|i: int, k: int|
                0 <= i < count && 0 <= k < entries[i].endpoints.len() && #[trigger] is_port_of(
                    row,
                    entries[i],
                    k,
                ) implies after.contains(row) by {
                if i == last {
                    assert(added[k] == row);
                    assert(after[before.len() + k] == row);
                }
            }
        }
    }
}

/// Whether a row shows a listener of a process.
pub open spec fn is_port_of(row: PortText, entry: InventoryText, index: int) -> bool {
    &&& row.port == entry.endpoints[index].port
    &&& row.label == ":"@ + decimal(entry.endpoints[index].port as nat)
    &&& row.url == listener_url(entry.endpoints[index].address, entry.endpoints[index].port)
    &&& row.pid == entry.pid
    &&& row.target == if entry.target_ids.len() > 0 {
        Some(entry.target_ids[0])
    } else {
        None
    }
}

/// How many rows the focused list has.
pub open spec fn focused_rows(panel: PanelText) -> nat {
    match panel.focus {
        Focus::Targets => first_rows(panel),
        Focus::Ports => ports_of(panel.inventory).len(),
        Focus::Endpoints => rows_of(panel).len(),
    }
}

/// Which row of the focused list is under the cursor.
pub open spec fn focused_row(panel: PanelText) -> usize {
    match panel.focus {
        Focus::Targets => panel.selected_target,
        Focus::Ports => panel.selected_port,
        Focus::Endpoints => panel.selected_endpoint,
    }
}

/// Moving takes the cursor of the focused list one row on where there is one, keeps it where
/// there is none, and leaves the other lists as they are, but for the endpoints of another
/// target, which are shown from the first.
pub proof fn cursors_move_by_one_row(panel: PanelText)
    requires
        cursors_in_lists(panel),
        focused_rows(panel) <= usize::MAX,
    ensures
        ({
            let down = after_key(panel, PanelKey::Down).0;
            let up = after_key(panel, PanelKey::Up).0;
            &&& focused_row(panel) + 1 < focused_rows(panel) ==> focused_row(down) == focused_row(
                panel,
            ) + 1
            &&& focused_row(panel) + 1 >= focused_rows(panel) ==> focused_row(down) == focused_row(
                panel,
            )
            &&& focused_row(panel) > 0 ==> focused_row(up) == focused_row(panel) - 1
            &&& focused_row(panel) == 0 ==> focused_row(up) == 0
            &&& down.focus == panel.focus && up.focus == panel.focus
            &&& panel.focus != Focus::Targets ==> down.selected_target == panel.selected_target
                && up.selected_target == panel.selected_target
            &&& panel.focus != Focus::Ports ==> down.selected_port == panel.selected_port
                && up.selected_port == panel.selected_port
            &&& panel.focus == Focus::Ports ==> down.selected_endpoint == panel.selected_endpoint
                && up.selected_endpoint == panel.selected_endpoint
            &&& panel.focus == Focus::Targets ==> down.selected_endpoint == 0
                && up.selected_endpoint == 0
        }),
        after_key(panel, PanelKey::Character('j')) == after_key(panel, PanelKey::Down),
        after_key(panel, PanelKey::Character('k')) == after_key(panel, PanelKey::Up),
        after_key(panel, PanelKey::Left) == after_key(panel, PanelKey::Tab),
        after_key(panel, PanelKey::Right) == after_key(panel, PanelKey::Tab),
{
}

/// No key changes what was found in the worktree, nor where the lists are scrolled to; and no key
/// but those that move, change the focus or have nothing to open changes anything at all.
pub proof fn keys_change_no_findings(panel: PanelText, key: PanelKey)
    ensures
        ({
            let after = after_key(panel, key).0;
            &&& after.inspection == panel.inspection
            &&& after.inventory == panel.inventory
            &&& after.load_error == panel.load_error
            &&& after.target_offset == panel.target_offset
            &&& after.port_offset == panel.port_offset
            &&& after.endpoint_offset == panel.endpoint_offset
            &&& after.stopping == panel.stopping
            &&& !(key == PanelKey::Character('o') || key == PanelKey::Character('y'))
                ==> after.message == panel.message
            &&& key == PanelKey::Enter || key is Other || key == PanelKey::Character('q') || key
                == PanelKey::Character('r') || key == PanelKey::Character('s') || key
                == PanelKey::Character('S') ==> after == panel
        }),
{
}

/// What a key asks for: the panel is closed by `q`, and by escape from the first list; `r`
/// refreshes; `s` in either case stops the target under the cursor, unless one is being stopped
/// or another list has the focus; enter runs the target under the cursor, by its id and label.
pub proof fn keys_ask_for_what_they_say(panel: PanelText, index: int)
    requires
        panel.inspection is Some,
        0 <= index < panel.inspection->0.statuses.len(),
        index == panel.selected_target,
    ensures
        after_key(panel, PanelKey::Character('q')).1 == ActionText::Close,
        after_key(panel, PanelKey::Escape).1 == ActionText::Close <==> panel.focus
            == Focus::Targets,
        panel.focus == Focus::Endpoints ==> after_key(panel, PanelKey::Escape).0.focus
            == Focus::Ports,
        panel.focus == Focus::Ports ==> after_key(panel, PanelKey::Escape).0.focus
            == Focus::Targets,
        after_key(panel, PanelKey::Character('r')).1 == ActionText::Refresh,
        after_key(panel, PanelKey::Character('s')).1 == ActionText::LoadToStop <==> panel.focus
            == Focus::Targets && !panel.stopping,
        after_key(panel, PanelKey::Character('S')).1 == ActionText::LoadToStop <==> panel.focus
            == Focus::Targets && !panel.stopping,
        panel.focus == Focus::Targets ==> after_key(panel, PanelKey::Enter).1 == (
        ActionText::OpenOrStart {
            target_id: panel.inspection->0.statuses[index].id,
            label: panel.inspection->0.statuses[index].label,
        }),
{
}

/// Whatever `o` opens, `y` copies; in the lists of ports and endpoints enter opens it too. It is
/// the URL of the port or endpoint under the cursor, or the one that is offered for the target
/// under the cursor; where there is none, that is said of a target and nothing happens
/// otherwise.
pub proof fn opened_urls_are_copied_alike(panel: PanelText, url: Seq<char>)
    ensures
        after_key(panel, PanelKey::Character('o')).1 == ActionText::OpenUrl(url) <==> after_key(
            panel,
            PanelKey::Character('y'),
        ).1 == ActionText::CopyUrl(url),
        panel.focus != Focus::Targets ==> after_key(panel, PanelKey::Enter).1 == after_key(
            panel,
            PanelKey::Character('o'),
        ).1,
        panel.focus == Focus::Ports && panel.selected_port < ports_of(panel.inventory).len()
            ==> after_key(panel, PanelKey::Character('o')).1 == ActionText::OpenUrl(
            ports_of(panel.inventory)[panel.selected_port as int].url,
        ),
        panel.focus == Focus::Endpoints && panel.selected_endpoint < rows_of(panel).len()
            ==> after_key(panel, PanelKey::Character('o')).1 == ActionText::OpenUrl(
            rows_of(panel)[panel.selected_endpoint as int].url,
        ),
        panel.focus == Focus::Targets ==> (after_key(panel, PanelKey::Character('o')).1
            == ActionText::OpenUrl(url) <==> status_under_cursor(panel) is Some && best_url(
            status_under_cursor(panel)->0,
        ) == Some(url)),
        panel.focus == Focus::Targets && status_under_cursor(panel) is Some && best_url(
            status_under_cursor(panel)->0,
        ) is None ==> after_key(panel, PanelKey::Character('o')).1 == ActionText::Nothing
            && after_key(panel, PanelKey::Character('o')).0.message is Some && after_key(
            panel,
            PanelKey::Character('y'),
        ).0.message is Some,
        after_key(panel, PanelKey::Character('o')).1 is OpenUrl ==> after_key(
            panel,
            PanelKey::Character('o'),
        ).0 == panel,
{
}

/// The endpoints of the target under the cursor are the named ones where there are any, and its
/// listeners otherwise, in order and each with its URL.
pub proof fn named_endpoints_are_shown_first(panel: PanelText, index: int)
    requires
        panel.inspection is Some,
        panel.selected_target < panel.inspection->0.statuses.len(),
        0 <= index < rows_of(panel).len(),
    ensures
        ({
            let status = panel.inspection->0.statuses[panel.selected_target as int];
            &&& status.named_endpoints.len() > 0 ==> rows_of(panel).len()
                == status.named_endpoints.len() && rows_of(panel)[index].url
                == status.named_endpoints[index].url && rows_of(panel)[index].label
                == status.named_endpoints[index].id
            &&& status.named_endpoints.len() == 0 ==> rows_of(panel).len()
                == status.endpoints.len() && rows_of(panel)[index].url == listener_url(
                status.endpoints[index].address,
                status.endpoints[index].port,
            )
        }),
{
}

/// A click on a row of a list puts the cursor of that list and the focus there, counting from
/// where the list is scrolled to, and opens the URL of a port or endpoint; a click beyond the
/// rows or beside the lists changes nothing.
pub proof fn clicks_choose_their_row(
    panel: PanelText,
    areas: Areas,
    column: u16,
    line: int,
    row: u16,
)
    requires
        0 <= line,
    ensures
        ({
            let mouse = PanelMouse { kind: MouseKind::LeftDown, column, row };
            let (after, action) = after_mouse(panel, mouse, areas);
            let first = holds_cell(areas.targets, column, row);
            let second = holds_cell(areas.ports, column, row);
            let third = holds_cell(areas.endpoints, column, row);
            &&& first && row == areas.targets.y + line && line + panel.target_offset < first_rows(
                panel,
            ) && first_rows(panel) <= usize::MAX ==> after.focus == Focus::Targets
                && after.selected_target == line + panel.target_offset && after.selected_endpoint
                == 0 && action == ActionText::Nothing
            &&& first && row == areas.targets.y + line && line + panel.target_offset >= first_rows(
                panel,
            ) ==> after == panel && action == ActionText::Nothing
            &&& !first && second && row == areas.ports.y + line && line + panel.port_offset
                < ports_of(panel.inventory).len() && ports_of(panel.inventory).len() <= usize::MAX
                ==> after.focus == Focus::Ports && after.selected_port == line + panel.port_offset
                && action == ActionText::OpenUrl(
                ports_of(panel.inventory)[line + panel.port_offset].url,
            )
            &&& !first && second && row == areas.ports.y + line && line + panel.port_offset
                >= ports_of(panel.inventory).len() ==> after == panel && action
                == ActionText::Nothing
            &&& !first && !second && third && row == areas.endpoints.y + line && line
                + panel.endpoint_offset < rows_of(panel).len() && rows_of(panel).len()
                <= usize::MAX ==> after.focus == Focus::Endpoints && after.selected_endpoint == line
                + panel.endpoint_offset && action == ActionText::OpenUrl(
                rows_of(panel)[line + panel.endpoint_offset].url,
            )
            &&& !first && !second && third && row == areas.endpoints.y + line && line
                + panel.endpoint_offset >= rows_of(panel).len() ==> after == panel && action
                == ActionText::Nothing
            &&& !first && !second && !third ==> after == panel && action == ActionText::Nothing
        }),
{
}

/// Scrolling moves the cursor of the list under the pointer as the keys would with the focus
/// there; beside the lists it moves that of the focused one, and the endpoints are scrolled only
/// where targets are shown. It never asks for anything, and a cell belongs to an area exactly
/// where it lies within its width and height.
pub proof fn scrolling_moves_the_list_under_the_pointer(
    panel: PanelText,
    areas: Areas,
    column: u16,
    row: u16,
)
    requires
        column < u16::MAX,
        row < u16::MAX,
    ensures
        ({
            let first = covers(areas.targets, column as int, row as int);
            let second = covers(areas.ports, column as int, row as int);
            let third = covers(areas.endpoints, column as int, row as int);
            let focus = if first {
                Focus::Targets
            } else if second {
                Focus::Ports
            } else if third && shows_targets(panel) {
                Focus::Endpoints
            } else {
                panel.focus
            };
            let focused = PanelText { focus, ..panel };
            &&& after_mouse(
                panel,
                PanelMouse { kind: MouseKind::ScrollDown, column, row },
                areas,
            ) == after_key(focused, PanelKey::Down)
            &&& after_mouse(
                panel,
                PanelMouse { kind: MouseKind::ScrollUp, column, row },
                areas,
            ) == after_key(focused, PanelKey::Up)
            &&& after_mouse(panel, PanelMouse { kind: MouseKind::Other, column, row }, areas) == (
                panel,
                ActionText::Nothing,
            )
        }),
{
}

/// A refresh that found nothing out keeps everything but says why; a manifest that failed keeps
/// the last inspection; one that is gone takes it away; and an inspection replaces it. The
/// processes are those of the last look, and an error is shown exactly where something failed.
pub proof fn refreshing_replaces_what_was_found(panel: PanelText, outcome: RefreshOutcome)
    ensures
        ({
            let after = refreshed(panel, outcome);
            match outcome {
                RefreshOutcome::Failed(error) => after == (PanelText {
                    load_error: Some(error@),
                    ..panel
                }),
                RefreshOutcome::Discovered { manifest, inventory } => {
                    &&& after.inventory == optional_inventory(inventory)
                    &&& after.focus == panel.focus && after.message == panel.message
                        && after.stopping == panel.stopping
                    &&& match manifest {
                        ManifestOutcome::Absent => after.inspection is None && (after.load_error is Some
                            <==> inventory is None),
                        ManifestOutcome::Failed(error) => after.inspection == panel.inspection
                            && after.load_error == Some(error@),
                        ManifestOutcome::Inspected(found) => after.inspection
                            == optional_inspection(Some(found)) && (after.load_error is Some
                            <==> inventory is None),
                    }
                },
            }
        }),
{
}

/// A refresh keeps a cursor on its row while the list still has one there, and puts it on the
/// last row otherwise.
pub proof fn cursors_survive_a_refresh(panel: PanelText, outcome: RefreshOutcome)
    requires
        outcome is Discovered,
        first_rows(refreshed(panel, outcome)) <= usize::MAX,
        ports_of(refreshed(panel, outcome).inventory).len() <= usize::MAX,
    ensures
        ({
            let after = refreshed(panel, outcome);
            let rows = first_rows(after);
            let ports = ports_of(after.inventory).len();
            &&& panel.selected_target < rows ==> after.selected_target == panel.selected_target
            &&& 0 < rows <= panel.selected_target ==> after.selected_target == rows - 1
            &&& panel.selected_port < ports ==> after.selected_port == panel.selected_port
            &&& 0 < ports <= panel.selected_port ==> after.selected_port == ports - 1
        }),
{
}

/// The target that is stopped is the first configured one with the id of the target under the
/// cursor.
pub proof fn the_target_under_the_cursor_is_stopped(
    panel: PanelText,
    targets: Seq<TargetText>,
    index: int,
)
    requires
        panel.inspection is Some,
        panel.selected_target < panel.inspection->0.statuses.len(),
        0 <= index < targets.len(),
        forall|j: int|
            0 <= j < index ==> (#[trigger] targets[j]).id
                != panel.inspection->0.statuses[panel.selected_target as int].id,
    ensures
        targets[index].id == panel.inspection->0.statuses[panel.selected_target as int].id
            ==> target_to_stop(panel, targets) == Some(targets[index]),
        target_to_stop(panel, targets) matches Some(target) ==> target.id
            == panel.inspection->0.statuses[panel.selected_target as int].id,
{
    let id = panel.inspection->0.statuses[panel.selected_target as int].id;
    targets_are_found_by_id(targets, id);
    if let Ok(target) = found_target(targets, id) {
        let i = choose|i: int|
            0 <= i < targets.len() && #[trigger] targets[i] == target && forall|j: int|
                0 <= j < i ==> (#[trigger] targets[j]).id != id;
        if targets[index].id == id {
            if i < index {
                assert(targets[i].id != id);
            }
            if index < i {
                assert(targets[index].id != id);
            }
        }
    }
}

/// Each list shows as many rows as its cursor can be on.
pub proof fn lists_show_the_rows_of_their_cursor(panel: PanelText)
    ensures
        first_rows(panel) > 0 ==> first_list(panel).len() == first_rows(panel),
        port_list(ports_of(panel.inventory)).len() == ports_of(panel.inventory).len(),
        endpoint_list(rows_of(panel)).len() == rows_of(panel).len(),
        shows_targets(panel) <==> panel.inspection is Some && panel.inspection->0.statuses.len()
            > 0,
{
}

/// The inside of a block leaves one cell on each side to its border.
pub proof fn borders_are_one_cell_wide(block: Area, x: int, y: int)
    requires
        block.x + block.width <= u16::MAX,
        block.y + block.height <= u16::MAX,
        has_border(block),
    ensures
        covers(within_border(block), x, y) <==> covers(block, x - 1, y - 1) && covers(
            block,
            x + 1,
            y + 1,
        ),
{
}

/// A target is shown as stopped exactly where it has no run, and as a duplicate, in another color
/// than a single run, exactly where it is one; a warning is shown exactly where there is a
/// finding to tell or something failed.
pub proof fn duplicates_stand_out(panel: PanelText, status: StatusText)
    ensures
        status.state is Stopped ==> state_span(status) == span("stopped"@, SpanStyle::DarkGray),
        status.state is Running && status.duplicate ==> state_span(status) == span(
            "duplicate!"@,
            SpanStyle::Red,
        ),
        status.state is Running && !status.duplicate ==> state_span(status) == span(
            "running"@,
            SpanStyle::Green,
        ),
        warning_words(panel) is None <==> panel.load_error is None && (
        panel.inspection matches Some(inspection) ==> joined(inspection.findings, "; "@).len()
            == 0),
{
}

/// The first column takes about a third of the width, rounded to whole cells, and its two lists
/// take half of the height between header and footer each; the others take the rest.
pub proof fn panes_have_their_share(area: Area, header: int, footer: int)
    requires
        area.x + area.width <= u16::MAX,
        area.y + area.height <= u16::MAX,
        area.height >= 4,
        heads_and_foots(area, header, footer),
    ensures
        panes(area, header, footer) matches Some(areas) ==> {
            let height = area.height - 4;
            let width = (area.width * 34 + 50) / 100;
            &&& areas.targets_block.x == area.x && areas.targets_block.y == area.y + 1
            &&& areas.targets_block.width == width && areas.ports_block.width == width
            &&& areas.info_block.width == area.width - width && areas.endpoints_block.width
                == area.width - width
            &&& areas.targets_block.height == (height * 50 + 50) / 100
            &&& areas.ports_block.height == height - areas.targets_block.height
            &&& areas.ports_block.y == areas.targets_block.y + areas.targets_block.height
            &&& areas.info_block.x == area.x + width && areas.endpoints_block.x == area.x + width
            &&& areas.info_block.height == if height < 4 {
                height
            } else {
                4
            }
            &&& areas.endpoints_block.height == height - areas.info_block.height
            &&& areas.targets == within_border(areas.targets_block)
            &&& areas.ports == within_border(areas.ports_block)
            &&& areas.endpoints == within_border(areas.endpoints_block)
        },
{
    let width = (area.width * 34 + 50) / 100;
    let height = area.height - 4;
    assert(0 <= width <= area.width);
    assert(0 <= (height * 50 + 50) / 100 <= height);
}

/// The foot of the panel shows the warning, if there is one, then the message, if there is one,
/// then which list has the focus and last the keys.
pub proof fn warnings_stand_before_messages(panel: PanelText)
    ensures
        ({
            let lines = footer_list(panel);
            let warned = warning_words(panel) is Some;
            let told = panel.message is Some;
            &&& lines.len() == 2 + counted(warned) + counted(told)
            &&& warned ==> lines[0] == seq![span(warning_words(panel)->0, SpanStyle::Yellow)]
            &&& told ==> lines[counted(warned)] == seq![
                span(" "@ + panel.message->0, SpanStyle::Cyan),
            ]
            &&& lines[lines.len() - 2] == seq![
                span(
                    " focus "@ + (match panel.focus {
                        Focus::Targets => if shows_targets(panel) {
                            "targets"@
                        } else {
                            "processes"@
                        },
                        Focus::Ports => "ports"@,
                        Focus::Endpoints => "endpoints"@,
                    }) + " · "@,
                    SpanStyle::Cyan,
                ),
            ]
        }),
{
}

/// What is told of the target under the cursor begins with the fault of its metadata, if there is
/// one, and ends with its command; without a target the error is told that kept it away.
pub proof fn details_are_of_the_target_under_the_cursor(panel: PanelText)
    ensures
        match status_under_cursor(panel) {
            Some(status) => {
                let lines = info_list(panel);
                &&& lines.len() == 2 + counted(status.metadata_error is Some)
                &&& status.metadata_error is Some ==> lines[0] == seq![
                    span(status.metadata_error->0, SpanStyle::Yellow),
                ]
                &&& lines.last()[1].text == " "@ + joined(status.argv, " "@)
                &&& lines[lines.len() - 2][1].text == match status.state {
                    StateText::Stopped => "  stopped"@,
                    StateText::Running(runs) => if status.duplicate {
                        "  running · DUPLICATE ("@ + decimal(runs.len()) + " instances)"@
                    } else {
                        "  running"@
                    },
                }
                &&& info_title(panel) == " "@ + status.label + " "@
            },
            None => panel.load_error is Some ==> info_list(panel) == seq![
                seq![span(panel.load_error->0, SpanStyle::Red)],
            ],
        },
{
}

/// A row of a target shows its label and the pids of its runs, none where it is stopped, and warns
/// exactly where its metadata has a fault.
pub proof fn rows_show_label_state_and_pids(status: StatusText)
    ensures
        target_row(status).len() == 4,
        target_row(status)[0].text.take(status.label.len() as int) == status.label,
        status.metadata_error is None <==> target_row(status)[1].text.len() == 0,
        target_row(status)[2] == state_span(status),
        status.state is Stopped ==> target_row(status)[3].text.len() == 0,
        status.state matches StateText::Running(runs) ==> target_row(status)[3].text == "  pid "@
            + joined(Seq::new(runs.len(), |i: int| decimal(runs[i].pid as nat)), ", "@),
{
    padding_adds_spaces(status.label, 24);
    reveal_strlit("");
    reveal_strlit("warning! ");
    if let StateText::Running(runs) = status.state {
        assert(decimals(run_pids(runs)) =~= Seq::new(
            runs.len(),
            |i: int| decimal(runs[i].pid as nat),
        ));
    }
}

/// A row of a process shows its pid, its ports where it has some, and its command, and a row of a
/// port its label, its URL, its pid and, where one claims it, its target.
pub proof fn rows_show_processes_and_ports(entry: InventoryText, row: PortText)
    ensures
        process_row(entry).len() == 3,
        process_row(entry)[0].text.take(decimal(entry.pid as nat).len() as int) == decimal(
            entry.pid as nat,
        ),
        entry.endpoints.len() == 0 ==> process_row(entry)[1].text.len() == 0,
        entry.endpoints.len() > 0 ==> process_row(entry)[1].text == "  "@ + joined(
            Seq::new(
                entry.endpoints.len(),
                |i: int| ":"@ + decimal(entry.endpoints[i].port as nat),
            ),
            " "@,
        ),
        process_row(entry)[2].text == "  "@ + shortened(joined(entry.argv, " "@), 80),
        port_row(row).len() == 3 + counted(row.target is Some),
        port_row(row)[0].text.take(row.label.len() as int) == row.label,
        port_row(row)[1].text == "  "@ + row.url,
        port_row(row)[2].text == "  pid "@ + decimal(row.pid as nat),
        row.target matches Some(target) ==> port_row(row)[3].text == " · "@ + target,
{
    padding_adds_spaces(decimal(entry.pid as nat), 7);
    padding_adds_spaces(row.label, 7);
    reveal_strlit("");
    assert(ports_shown(entry.endpoints) =~= Seq::new(
        entry.endpoints.len(),
        |i: int| ":"@ + decimal(entry.endpoints[i].port as nat),
    ));
}

/// A stop that is still going on says nothing; one that is over says which processes it stopped,
/// that there was nothing to stop, or why it failed.
pub proof fn stops_are_told_once_they_are_over(polled: StopPoll)
    ensures
        stop_words(polled) is None <==> polled is NothingYet,
        polled matches StopPoll::Failed(error) ==> stop_words(polled) == Some(error@),
        polled matches StopPoll::Stopped(pids) ==> (pids@.len() > 0 ==> stop_words(polled) == Some(
            "stopping pid "@ + joined(
                Seq::new(pids@.len(), |i: int| decimal(pids@[i] as nat)),
                ", "@,
            ),
        )),
{
    if let StopPoll::Stopped(pids) = polled {
        assert(decimals(pids@) =~= Seq::new(pids@.len(), |i: int| decimal(pids@[i] as nat)));
    }
}

/// The ports are listed by their number, those of one number by their pid; every listener is
/// among them, by its URL and its process, and no two neighbors have both in common.
pub proof fn ports_are_listed_by_number(entries: Seq<InventoryText>, row: PortText)
    ensures
        ({
            let shown = ports_of(Some(entries));
            &&& forall|i: int, j: int|
                0 <= i < j < shown.len() ==> (#[trigger] shown[i]).port < (#[trigger] shown[j]).port
                    || shown[i].port == shown[j].port && shown[i].pid <= shown[j].pid
            &&& listed_ports(entries, entries.len() as int).contains(row) ==> exists|j: int|
                0 <= j < shown.len() && (#[trigger] shown[j]).url == row.url && shown[j].pid
                    == row.pid
            &&& forall|i: int|
                0 < i < shown.len() ==> (#[trigger] shown[i]).url != shown[i - 1].url
                    || shown[i].pid != shown[i - 1].pid
        }),
{
    ports_are_listed_in_order(entries);
    let shown = ports_of(Some(entries));
    assert forall|i: int, j: int| 0 <= i < j < shown.len() implies (#[trigger] shown[i]).port < (
    #[trigger] shown[j]).port || shown[i].port == shown[j].port && shown[i].pid
        <= shown[j].pid by {
        assert(!port_precedes(shown[j], shown[i]));
    }
    if listed_ports(entries, entries.len() as int).contains(row) {
        let j = choose|j: int|
            0 <= j < shown.len() && same_listener(row, #[trigger] shown[j]);
        assert(shown[j].url == row.url);
    }
    assert forall|i: int| 0 < i < shown.len() implies (#[trigger] shown[i]).url != shown[i - 1].url
        || shown[i].pid != shown[i - 1].pid by {
        assert(!same_listener(shown[i], shown[i - 1]));
    }
}

/// The target under the cursor is the one that the cursor counts to, and there is none beyond the
/// last one or where no targets were found.
pub proof fn cursors_count_from_the_first_target(panel: PanelText)
    ensures
        panel.inspection is None ==> status_under_cursor(panel) is None && rows_of(panel).len()
            == 0,
        panel.inspection matches Some(inspection) ==> status_under_cursor(panel) == (
        if panel.selected_target < inspection.statuses.len() {
            Some(inspection.statuses[panel.selected_target as int])
        } else {
            None
        }),
        first_rows(panel) == (match panel.inspection {
            Some(inspection) => if inspection.statuses.len() > 0 {
                inspection.statuses.len()
            } else {
                match panel.inventory {
                    Some(entries) => entries.len(),
                    None => 0,
                }
            },
            None => match panel.inventory {
                Some(entries) => entries.len(),
                None => 0,
            },
        }),
{
}

/// The panel is laid out wherever its terminal ends before the last cell that can be counted, and
/// is not where it would begin there.
pub proof fn panels_fit_any_terminal(area: Area, header: int, footer: int)
    requires
        heads_and_foots(area, header, footer),
    ensures
        area.x + area.width < u16::MAX && area.y + area.height < u16::MAX ==> panes(
            area,
            header,
            footer,
        ) is Some,
        area.x == u16::MAX ==> panes(area, header, footer) is None,
{
}

/// Nothing is opened or copied where the cursor of the focused list is on no row.
pub proof fn empty_rows_open_nothing(panel: PanelText)
    requires
        panel.focus == Focus::Ports ==> panel.selected_port >= ports_of(panel.inventory).len(),
        panel.focus == Focus::Endpoints ==> panel.selected_endpoint >= rows_of(panel).len(),
        panel.focus == Focus::Targets ==> status_under_cursor(panel) is None,
    ensures
        after_key(panel, PanelKey::Character('o')) == (panel, ActionText::Nothing),
        after_key(panel, PanelKey::Character('y')) == (panel, ActionText::Nothing),
        after_key(panel, PanelKey::Enter) == (panel, ActionText::Nothing),
{
}

} // verus!
