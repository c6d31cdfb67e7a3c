//! Exact identities of Linux processes, and what they own.
use vstd::prelude::*;
use vstd::string::*;
use vstd::utf8::*;

use crate::numbers::{number_value, parse_number};
use crate::ordered::{increasing, keys, sorted_distinct, Rank, Ranked};
use crate::path_text::same_bytes;
use crate::text::{
    behind_last, characters, is_text, part_behind_last, pieces_at, rows, split_bytes_at,
    split_words, texts_end_behind_the_last_separator, words,
};

verus! {

/// Linux process identity; numeric PIDs alone are never safe stop handles.
#[derive(Clone, Copy, Debug, PartialEq, Eq, Structural)]
pub struct ProcessIdentity {
    pub pid: u32,
    pub start_time: u64,
}

/// What one line of process statistics says of a process that is neither a zombie nor dead.
#[derive(Clone, Copy, Debug, PartialEq, Eq, Structural)]
pub struct ProcessStat {
    pub identity: ProcessIdentity,
    pub parent: u32,
    pub group: u32,
}

/// The fields of a statistics line that follow the command name. The name stands in
/// parentheses and may itself hold spaces and parentheses, so the last one ends it.
pub open spec fn stat_fields(stat: Seq<char>) -> Seq<Seq<char>> {
    match behind_last(stat, ')') {
        Some(rest) => words(rest),
        None => Seq::empty(),
    }
}

/// What a statistics line says of a live process.
pub open spec fn stat_of(pid: u32, stat: Seq<char>) -> Option<ProcessStat> {
    let fields = stat_fields(stat);
    if fields.len() <= 19 || fields[0] == "Z"@ || fields[0] == "X"@ {
        None
    } else {
        match (
            number_value(fields[19], 10, u64::MAX as nat),
            number_value(fields[1], 10, u32::MAX as nat),
            number_value(fields[2], 10, u32::MAX as nat),
        ) {
            (Some(start_time), Some(parent), Some(group)) => Some(
                ProcessStat {
                    identity: ProcessIdentity { pid, start_time: start_time as u64 },
                    parent: parent as u32,
                    group: group as u32,
                },
            ),
            _ => None,
        }
    }
}

/// Reads one line of `/proc/<pid>/stat`.
pub fn read_stat(pid: u32, stat: &str) -> (result: Option<ProcessStat>)
    ensures
        result == stat_of(pid, stat@),
{
    let source = characters(stat);
    let rest = match part_behind_last(source.as_slice(), ')') {
        Some(rest) => rest,
        None => {
            return None;
        },
    };
    let fields = split_words(rest.as_slice());
    proof {
        assert(rows(fields@) == stat_fields(stat@));
        assert(rows(fields@).len() == fields.len());
    }
    if fields.len() <= 19 {
        return None;
    }
    proof {
        assert(rows(fields@)[0] == fields@[0]@);
        assert(rows(fields@)[1] == fields@[1]@);
        assert(rows(fields@)[2] == fields@[2]@);
        assert(rows(fields@)[19] == fields@[19]@);
    }
    if is_text(fields[0].as_slice(), "Z") || is_text(fields[0].as_slice(), "X") {
        return None;
    }
    match (
        parse_number(fields[19].as_slice(), 10, u64::MAX),
        parse_number(fields[1].as_slice(), 10, u32::MAX as u64),
        parse_number(fields[2].as_slice(), 10, u32::MAX as u64),
    ) {
        (Some(start_time), Some(parent), Some(group)) => Some(
            ProcessStat {
                identity: ProcessIdentity { pid, start_time },
                parent: parent as u32,
                group: group as u32,
            },
        ),
        _ => None,
    }
}

/// The identity that a statistics line gives a live process.
pub open spec fn identity_of(pid: u32, stat: Option<Seq<char>>) -> Option<ProcessIdentity> {
    match stat {
        Some(line) => match stat_of(pid, line) {
            Some(found) => Some(found.identity),
            None => None,
        },
        None => None,
    }
}

impl ProcessIdentity {
    /// The identity of a process, from its statistics line where it could be read.
    pub fn read(pid: u32, stat: Option<&str>) -> (result: Option<Self>)
        ensures
            result == identity_of(
                pid,
                match stat {
                    Some(line) => Some(line@),
                    None => None,
                },
            ),
    {
        match stat {
            Some(line) => match read_stat(pid, line) {
                Some(found) => Some(found.identity),
                None => None,
            },
            None => None,
        }
    }

    /// Whether the statistics line of the process still gives this identity.
    pub fn is_live(self, stat: Option<&str>) -> (result: bool)
        ensures
            result == (identity_of(
                self.pid,
                match stat {
                    Some(line) => Some(line@),
                    None => None,
                },
            ) == Some(self)),
    {
        match ProcessIdentity::read(self.pid, stat) {
            Some(current) => current == self,
            None => false,
        }
    }
}

/// Whether an environment block, entries separated by zero bytes, holds an entry.
pub open spec fn environment_holds(environment: Seq<u8>, entry: Seq<char>) -> bool {
    pieces_at(environment, 0u8).contains(encode_utf8(entry))
}

pub fn holds_environment_entry(environment: &[u8], entry: &str) -> (result: bool)
    ensures
        result == environment_holds(environment@, entry@),
{
    let wanted = entry.as_bytes();
    let entries = split_bytes_at(environment, 0u8);
    let mut index: usize = 0;
    while index < entries.len()
        invariant
            index <= entries.len(),
            rows(entries@) == pieces_at(environment@, 0u8),
            wanted@ == encode_utf8(entry@),
            forall|i: int| 0 <= i < index ==> #[trigger] rows(entries@)[i] != encode_utf8(entry@),
        decreases entries.len() - index,
    {
        if same_bytes(entries[index].as_slice(), wanted) {
            proof {
                assert(rows(entries@)[index as int] == encode_utf8(entry@));
            }
            return true;
        }
        index += 1;
    }
    false
}

/// Explicit per-launch group ownership. The random inherited token prevents a
/// recycled PGID from authorizing a stop after the original leader is reaped.
#[derive(Debug, PartialEq, Eq)]
pub struct OwnedProcessGroup {
    pub pgid: u32,
    pub token: String,
}

/// What was read of one process: its statistics line, its environment, and the line again.
#[derive(Debug, PartialEq, Eq)]
pub struct GroupObservation {
    pub pid: u32,
    pub stat: Option<String>,
    pub environment: Option<Vec<u8>>,
    pub stat_again: Option<String>,
}

/// The entry that a run token leaves in an environment.
pub open spec fn run_token_entry(token: Seq<char>) -> Seq<char> {
    "PORTBOARD_RUN_TOKEN="@ + token
}

/// The member that an observation shows: a live process of the group that holds the token and
/// is the same process when it is looked at again.
pub open spec fn observed_member(
    pgid: u32,
    token: Seq<char>,
    seen: GroupObservation,
) -> Option<ProcessIdentity> {
    match (seen.stat, seen.environment) {
        (Some(line), Some(environment)) => match stat_of(seen.pid, line@) {
            Some(found) => if found.group == pgid && environment_holds(
                environment@,
                run_token_entry(token),
            ) && identity_of(
                found.identity.pid,
                crate::text::optional_text(seen.stat_again),
            ) == Some(found.identity) {
                Some(found.identity)
            } else {
                None
            },
            None => None,
        },
        _ => None,
    }
}

/// The members that a list of observations shows, in order.
pub open spec fn observed_members(
    pgid: u32,
    token: Seq<char>,
    seen: Seq<GroupObservation>,
) -> Seq<ProcessIdentity>
    decreases seen.len(),
{
    if seen.len() == 0 {
        Seq::empty()
    } else {
        let before = observed_members(pgid, token, seen.drop_last());
        match observed_member(pgid, token, seen.last()) {
            Some(member) => before.push(member),
            None => before,
        }
    }
}

impl OwnedProcessGroup {
    fn member(&self, seen: &GroupObservation) -> (result: Option<ProcessIdentity>)
        ensures
            result == observed_member(self.pgid, self.token@, *seen),
    {
        let line = match &seen.stat {
            Some(line) => line,
            None => {
                return None;
            },
        };
        let environment = match &seen.environment {
            Some(environment) => environment,
            None => {
                return None;
            },
        };
        let found = match read_stat(seen.pid, line.as_str()) {
            Some(found) => found,
            None => {
                return None;
            },
        };
        if found.group != self.pgid {
            return None;
        }
        let mut expected = "PORTBOARD_RUN_TOKEN=".to_owned();
        expected.append(self.token.as_str());
        if !holds_environment_entry(environment.as_slice(), expected.as_str()) {
            return None;
        }
        let again = match &seen.stat_again {
            Some(line) => found.identity.is_live(Some(line.as_str())),
            None => false,
        };
        if again {
            Some(found.identity)
        } else {
            None
        }
    }

    /// The live members of the group among the processes that were looked at.
    pub fn members(&self, seen: &Vec<GroupObservation>) -> (result: Vec<ProcessIdentity>)
        ensures
            result@ == observed_members(self.pgid, self.token@, seen@),
    {
        let mut result: Vec<ProcessIdentity> = Vec::new();
        let mut index: usize = 0;
        while index < seen.len()
            invariant
                index <= seen.len(),
                result@ == observed_members(self.pgid, self.token@, seen@.take(index as int)),
            decreases seen.len() - index,
        {
            let ghost longer = seen@.take(index + 1);
            proof {
                assert(longer.drop_last() =~= seen@.take(index as int));
                assert(longer.last() == seen@[index as int]);
            }
            match self.member(&seen[index]) {
                Some(member) => {
                    result.push(member);
                },
                None => {},
            }
            index += 1;
        }
        proof {
            assert(seen@.take(seen.len() as int) =~= seen@);
        }
        result
    }
}

/// A process of another group, or one that does not hold the run token, is never a member.
pub proof fn foreign_processes_are_no_members(
    pgid: u32,
    token: Seq<char>,
    seen: Seq<GroupObservation>,
    member: ProcessIdentity,
)
    requires
        observed_members(pgid, token, seen).contains(member),
    ensures
        exists|i: int|
            0 <= i < seen.len() && #[trigger] observed_member(pgid, token, seen[i]) == Some(member)
                && (seen[i].stat matches Some(line) && stat_of(seen[i].pid, line@) matches Some(
                found,
            ) && found.group == pgid && found.identity == member) && (
            seen[i].environment matches Some(environment) && environment_holds(
                environment@,
                run_token_entry(token),
            )),
    decreases seen.len(),
{
    if seen.len() > 0 {
        let before = observed_members(pgid, token, seen.drop_last());
        if before.contains(member) {
            foreign_processes_are_no_members(pgid, token, seen.drop_last(), member);
            let i = choose|i: int|
                0 <= i < seen.drop_last().len() && #[trigger] observed_member(
                    pgid,
                    token,
                    seen.drop_last()[i],
                ) == Some(member);
            assert(observed_member(pgid, token, seen[i]) == Some(member));
        } else {
            assert(observed_member(pgid, token, seen[seen.len() - 1]) == Some(member));
        }
    }
}

impl Ranked for ProcessIdentity {
    type Key = ProcessIdentity;

    open spec fn key(&self) -> ProcessIdentity {
        *self
    }

    open spec fn precedes(left: ProcessIdentity, right: ProcessIdentity) -> bool {
        left.pid < right.pid || (left.pid == right.pid && left.start_time < right.start_time)
    }

    proof fn precedes_total(left: ProcessIdentity, right: ProcessIdentity) {
    }

    proof fn precedes_strict(left: ProcessIdentity, right: ProcessIdentity) {
    }

    proof fn precedes_transitive(
        first: ProcessIdentity,
        second: ProcessIdentity,
        third: ProcessIdentity,
    ) {
    }

    fn rank(&self, other: &Self) -> (result: Rank) {
        if self.pid < other.pid || (self.pid == other.pid && self.start_time < other.start_time) {
            Rank::Before
        } else if *self == *other {
            Rank::Same
        } else {
            Rank::Behind
        }
    }
}

/// Whether a table of live processes holds an identity.
pub open spec fn lives(table: Seq<ProcessStat>, identity: ProcessIdentity) -> bool {
    exists|i: int| 0 <= i < table.len() && (#[trigger] table[i]).identity == identity
}

fn is_listed(table: &Vec<ProcessStat>, identity: ProcessIdentity) -> (result: bool)
    ensures
        result == lives(table@, identity),
{
    let mut index: usize = 0;
    while index < table.len()
        invariant
            index <= table.len(),
            forall|i: int| 0 <= i < index ==> (#[trigger] table@[i]).identity != identity,
        decreases table.len() - index,
    {
        if table[index].identity == identity {
            return true;
        }
        index += 1;
    }
    false
}

/// Whether some selected process has a pid.
pub open spec fn selects_pid(selected: Seq<ProcessIdentity>, pid: u32) -> bool {
    exists|i: int| 0 <= i < selected.len() && (#[trigger] selected[i]).pid == pid
}

fn has_pid(selected: &Vec<ProcessIdentity>, pid: u32) -> (result: bool)
    ensures
        result == selects_pid(selected@, pid),
{
    let mut index: usize = 0;
    while index < selected.len()
        invariant
            index <= selected.len(),
            forall|i: int| 0 <= i < index ==> (#[trigger] selected@[i]).pid != pid,
        decreases selected.len() - index,
    {
        if selected[index].pid == pid {
            return true;
        }
        index += 1;
    }
    false
}

fn is_selected(selected: &Vec<ProcessIdentity>, identity: ProcessIdentity) -> (result: bool)
    ensures
        result == selected@.contains(identity),
{
    let mut index: usize = 0;
    while index < selected.len()
        invariant
            index <= selected.len(),
            forall|i: int| 0 <= i < index ==> #[trigger] selected@[i] != identity,
        decreases selected.len() - index,
    {
        if selected[index] == identity {
            return true;
        }
        index += 1;
    }
    false
}

/// What is selected once the first `count` processes of a table were offered in turn: a process
/// joins behind the others where its parent is selected and it is not yet.
pub open spec fn joined_children(
    table: Seq<ProcessStat>,
    selected: Seq<ProcessIdentity>,
    count: int,
) -> Seq<ProcessIdentity>
    decreases count,
{
    if count <= 0 {
        selected
    } else {
        let before = joined_children(table, selected, count - 1);
        let offered = table[count - 1];
        if !before.contains(offered.identity) && selects_pid(before, offered.parent) {
            before.push(offered.identity)
        } else {
            before
        }
    }
}

/// What is selected after a number of passes over a table.
pub open spec fn after_passes(
    table: Seq<ProcessStat>,
    selected: Seq<ProcessIdentity>,
    passes: nat,
) -> Seq<ProcessIdentity>
    decreases passes,
{
    if passes == 0 {
        selected
    } else {
        joined_children(
            table,
            after_passes(table, selected, (passes - 1) as nat),
            table.len() as int,
        )
    }
}

/// The live ones among some roots, in order and each once.
pub open spec fn orders_live_roots(
    roots: Seq<ProcessIdentity>,
    table: Seq<ProcessStat>,
    list: Seq<ProcessIdentity>,
) -> bool {
    &&& increasing::<ProcessIdentity>(keys(list))
    &&& forall|identity: ProcessIdentity| #[trigger]
        list.contains(identity) <==> roots.contains(identity) && lives(table, identity)
}

/// The selection from which no pass over the table adds anything, reached from some roots.
pub open spec fn settles(
    roots: Seq<ProcessIdentity>,
    table: Seq<ProcessStat>,
    start: Seq<ProcessIdentity>,
    passes: nat,
    result: Seq<ProcessIdentity>,
) -> bool {
    &&& orders_live_roots(roots, table, start)
    &&& result == after_passes(table, start, passes)
    &&& joined_children(table, result, table.len() as int) == result
}

/// Captures descendants while the root identity is still valid: the live roots, and every
/// process of the table whose parent is captured. Capturing exact identities before signaling
/// avoids both orphan leakage and group-wide kills.
pub fn process_trees(roots: &Vec<ProcessIdentity>, table: &Vec<ProcessStat>) -> (result: Vec<
    ProcessIdentity,
>)
    ensures
        exists|start: Seq<ProcessIdentity>, passes: nat| #[trigger]
            settles(roots@, table@, start, passes, result@),
{
    let mut live: Vec<ProcessIdentity> = Vec::new();
    let mut index: usize = 0;
    while index < roots.len()
        invariant
            index <= roots.len(),
            forall|identity: ProcessIdentity| #[trigger]
                live@.contains(identity) <==> roots@.take(index as int).contains(identity) && lives(
                    table@,
                    identity,
                ),
        decreases roots.len() - index,
    {
        let root = roots[index];
        let ghost before = live@;
        let ghost earlier = roots@.take(index as int);
        proof {
            assert(roots@.take(index + 1) =~= earlier.push(root));
        }
        if is_listed(table, root) {
            live.push(root);
            proof {
                assert forall|identity: ProcessIdentity| #[trigger]
                    live@.contains(identity) <==> before.contains(identity) || identity == root by {
                    if identity == root {
                        assert(live@[before.len() as int] == root);
                    }
                    if before.contains(identity) {
                        let at = choose|at: int| 0 <= at < before.len() && before[at] == identity;
                        assert(live@[at] == identity);
                    }
                }
            }
        }
        proof {
            assert forall|identity: ProcessIdentity| #[trigger]
                earlier.push(root).contains(identity) <==> earlier.contains(identity) || identity
                    == root by {
                if identity == root {
                    assert(earlier.push(root)[earlier.len() as int] == root);
                }
                if earlier.contains(identity) {
                    let at = choose|at: int| 0 <= at < earlier.len() && earlier[at] == identity;
                    assert(earlier.push(root)[at] == identity);
                }
            }
        }
        index += 1;
    }
    proof {
        assert(roots@.take(roots.len() as int) =~= roots@);
    }
    let ghost unsorted = live@;
    let mut selected = sorted_distinct(live);
    let ghost start = selected@;
    proof {
        assert(keys(start) =~= start);
        assert(keys(unsorted) =~= unsorted);
        assert(orders_live_roots(roots@, table@, start));
        lemma_increasing_distinct(start);
    }
    let ghost mut passes: nat = 0;
    let mut changed = true;
    while changed
        invariant
            selected@ == after_passes(table@, start, passes),
            orders_live_roots(roots@, table@, start),
            selected@.no_duplicates(),
            forall|i: int| 0 <= i < selected@.len() ==> lives(table@, #[trigger] selected@[i]),
            !changed ==> joined_children(table@, selected@, table@.len() as int) == selected@,
        decreases (if changed { 1int } else { 0int }) + table@.len() - selected@.len(),
    {
        let ghost before = selected@;
        proof {
            lemma_captured_fit(table@, before);
        }
        let count: usize = selected.len();
        let mut offered: usize = 0;
        while offered < table.len()
            invariant
                offered <= table.len(),
                selected@ == joined_children(table@, before, offered as int),
                selected@.no_duplicates(),
                forall|i: int| 0 <= i < selected@.len() ==> lives(table@, #[trigger] selected@[i]),
                selected@.len() >= before.len() == count,
                selected@.len() == before.len() ==> selected@ == before,
            decreases table.len() - offered,
        {
            let row = table[offered];
            if !is_selected(&selected, row.identity) && has_pid(&selected, row.parent) {
                selected.push(row.identity);
            }
            offered += 1;
        }
        proof {
            lemma_captured_fit(table@, selected@);
            passes = passes + 1;
        }
        changed = selected.len() != count;
    }
    proof {
        assert(settles(roots@, table@, start, passes, selected@));
    }
    selected
}

proof fn lemma_increasing_distinct(list: Seq<ProcessIdentity>)
    requires
        increasing::<ProcessIdentity>(keys(list)),
    ensures
        list.no_duplicates(),
{
    assert forall|i: int, j: int| 0 <= i < list.len() && 0 <= j < list.len() && i != j implies list[i]
        != list[j] by {
        let low = if i < j { i } else { j };
        let high = if i < j { j } else { i };
        assert(ProcessIdentity::precedes(
            keys::<ProcessIdentity>(list)[low],
            keys::<ProcessIdentity>(list)[high],
        ));
    }
}

/// No more distinct identities of a table can be captured than it has rows.
proof fn lemma_captured_fit(table: Seq<ProcessStat>, selected: Seq<ProcessIdentity>)
    requires
        selected.no_duplicates(),
        forall|i: int| 0 <= i < selected.len() ==> lives(table, #[trigger] selected[i]),
    ensures
        selected.len() <= table.len(),
{
    let listed = Seq::new(table.len(), |i: int| table[i].identity);
    selected.unique_seq_to_set();
    listed.lemma_cardinality_of_set();
    assert forall|identity: ProcessIdentity| selected.to_set().contains(identity) implies listed.to_set().contains(
    identity) by {
        let at = choose|at: int| 0 <= at < selected.len() && selected[at] == identity;
        assert(lives(table, selected[at]));
        let row = choose|row: int|
            0 <= row < table.len() && (#[trigger] table[row]).identity == identity;
        assert(listed[row] == identity);
    }
    vstd::set_lib::lemma_len_subset(selected.to_set(), listed.to_set());
}

/// A captured selection holds live processes only, each once. Each is a root or has its parent
/// among them, and no live child of a captured process is missing.
pub proof fn captured_trees_are_whole(
    roots: Seq<ProcessIdentity>,
    table: Seq<ProcessStat>,
    start: Seq<ProcessIdentity>,
    passes: nat,
    result: Seq<ProcessIdentity>,
)
    requires
        settles(roots, table, start, passes, result),
    ensures
        result.no_duplicates(),
        forall|i: int| 0 <= i < result.len() ==> lives(table, #[trigger] result[i]),
        forall|i: int|
            0 <= i < result.len() ==> roots.contains(#[trigger] result[i]) || has_captured_parent(
                table,
                result,
                result[i],
            ),
        forall|root: ProcessIdentity|
            #![trigger result.contains(root)]
            roots.contains(root) && lives(table, root) ==> result.contains(root),
        forall|i: int|
            0 <= i < table.len() && selects_pid(result, (#[trigger] table[i]).parent)
                ==> result.contains(table[i].identity),
{
    lemma_increasing_distinct(start);
    lemma_passes(table, start, passes);
    assert forall|i: int| 0 <= i < result.len() implies roots.contains(#[trigger] result[i])
        || has_captured_parent(table, result, result[i]) by {
        if start.contains(result[i]) {
            assert(roots.contains(result[i]));
        }
    }
    assert forall|root: ProcessIdentity|
        #![trigger result.contains(root)]
        roots.contains(root) && lives(table, root) implies result.contains(root) by {
        assert(start.contains(root));
        let at = choose|at: int| 0 <= at < start.len() && start[at] == root;
        assert(result[at] == root);
    }
    assert forall|i: int|
        0 <= i < table.len() && selects_pid(result, (#[trigger] table[i]).parent) implies result.contains(
    table[i].identity) by {
        lemma_join_grows(table, result, i);
        lemma_join_grows(table, result, i + 1);
        lemma_join_between(table, result, i + 1, table.len() as int);
        lemma_join_between(table, result, i, i + 1);
        assert(joined_children(table, result, i + 1).len() == result.len());
        assert(joined_children(table, result, i) =~= result);
    }
}

/// Whether the table shows a process whose parent is captured.
pub open spec fn has_captured_parent(
    table: Seq<ProcessStat>,
    selected: Seq<ProcessIdentity>,
    identity: ProcessIdentity,
) -> bool {
    exists|j: int|
        0 <= j < table.len() && (#[trigger] table[j]).identity == identity && selects_pid(
            selected,
            table[j].parent,
        )
}

proof fn lemma_selects_more(few: Seq<ProcessIdentity>, many: Seq<ProcessIdentity>, pid: u32)
    requires
        few.is_prefix_of(many),
        selects_pid(few, pid),
    ensures
        selects_pid(many, pid),
{
    let i = choose|i: int| 0 <= i < few.len() && (#[trigger] few[i]).pid == pid;
    assert(many[i] == few[i]);
}

/// What the passes over a table keep.
spec fn kept(table: Seq<ProcessStat>, start: Seq<ProcessIdentity>, selected: Seq<ProcessIdentity>) -> bool {
    &&& start.is_prefix_of(selected)
    &&& selected.no_duplicates()
    &&& forall|i: int| 0 <= i < selected.len() ==> lives(table, #[trigger] selected[i])
    &&& forall|i: int|
        0 <= i < selected.len() ==> start.contains(#[trigger] selected[i]) || has_captured_parent(
            table,
            selected,
            selected[i],
        )
}

proof fn lemma_join_keeps(
    table: Seq<ProcessStat>,
    start: Seq<ProcessIdentity>,
    selected: Seq<ProcessIdentity>,
    count: int,
)
    requires
        kept(table, start, selected),
        0 <= count <= table.len(),
    ensures
        kept(table, start, joined_children(table, selected, count)),
    decreases count,
{
    if count > 0 {
        lemma_join_keeps(table, start, selected, count - 1);
        let before = joined_children(table, selected, count - 1);
        let after = joined_children(table, selected, count);
        assert(before.is_prefix_of(after));
        assert forall|i: int| 0 <= i < after.len() implies start.contains(#[trigger] after[i])
            || has_captured_parent(table, after, after[i]) by {
            if i < before.len() {
                assert(after[i] == before[i]);
                if !start.contains(before[i]) {
                    let j = choose|j: int|
                        0 <= j < table.len() && (#[trigger] table[j]).identity == before[i]
                            && selects_pid(before, table[j].parent);
                    lemma_selects_more(before, after, table[j].parent);
                    assert(table[j].identity == after[i]);
                }
            } else {
                lemma_selects_more(before, after, table[count - 1].parent);
                assert(table[count - 1].identity == after[i]);
            }
        }
        assert forall|i: int| 0 <= i < after.len() implies lives(table, #[trigger] after[i]) by {
            if i < before.len() {
                assert(after[i] == before[i]);
            } else {
                assert(table[count - 1].identity == after[i]);
            }
        }
    }
}

proof fn lemma_passes(table: Seq<ProcessStat>, start: Seq<ProcessIdentity>, passes: nat)
    requires
        start.no_duplicates(),
        forall|identity: ProcessIdentity| #[trigger] start.contains(identity) ==> lives(table, identity),
    ensures
        kept(table, start, after_passes(table, start, passes)),
    decreases passes,
{
    if passes == 0 {
        assert forall|i: int| 0 <= i < start.len() implies lives(table, #[trigger] start[i]) by {
            assert(start.contains(start[i]));
        }
    } else {
        lemma_passes(table, start, (passes - 1) as nat);
        lemma_join_keeps(
            table,
            start,
            after_passes(table, start, (passes - 1) as nat),
            table.len() as int,
        );
    }
}

proof fn lemma_join_grows(table: Seq<ProcessStat>, selected: Seq<ProcessIdentity>, count: int)
    ensures
        selected.is_prefix_of(joined_children(table, selected, count)),
    decreases count,
{
    if count > 0 {
        lemma_join_grows(table, selected, count - 1);
    }
}

proof fn lemma_join_between(
    table: Seq<ProcessStat>,
    selected: Seq<ProcessIdentity>,
    few: int,
    many: int,
)
    requires
        0 <= few <= many,
    ensures
        joined_children(table, selected, few).is_prefix_of(joined_children(table, selected, many)),
    decreases many - few,
{
    if few < many {
        lemma_join_between(table, selected, few, many - 1);
    }
}

/// A statistics line is read behind the last closing parenthesis, whatever the command name
/// holds: the first field tells a zombie or a dead process, the second is the parent, the third
/// the group and the twentieth the start time.
pub proof fn statistics_stand_behind_the_name(
    pid: u32,
    name: Seq<char>,
    rest: Seq<char>,
    found: ProcessStat,
)
    requires
        !rest.contains(')'),
    ensures
        stat_of(pid, name + seq![')'] + rest) == Some(found) <==> words(rest).len() >= 20 && words(
            rest,
        )[0] != "Z"@ && words(rest)[0] != "X"@ && found.identity.pid == pid && number_value(
            words(rest)[1],
            10,
            u32::MAX as nat,
        ) == Some(found.parent as nat) && number_value(words(rest)[2], 10, u32::MAX as nat) == Some(
            found.group as nat,
        ) && number_value(words(rest)[19], 10, u64::MAX as nat) == Some(
            found.identity.start_time as nat,
        ),
        stat_of(pid, rest) is None,
{
    texts_end_behind_the_last_separator(name, ')', rest);
}

/// A process is still the one that was seen exactly where it lives and has the start time that it
/// had then: another process under the same pid is another identity.
pub proof fn identities_tell_reused_pids_apart(
    pid: u32,
    first: ProcessStat,
    second: ProcessStat,
    line: Seq<char>,
    later: Seq<char>,
)
    requires
        stat_of(pid, line) == Some(first),
        stat_of(pid, later) == Some(second),
    ensures
        identity_of(pid, Some(line)) == Some(first.identity),
        identity_of(pid, None) is None,
        identity_of(pid, Some(later)) == identity_of(pid, Some(line)) <==> first.identity.start_time
            == second.identity.start_time,
{
}

/// A process is a member of a group exactly where it lives in that group, its environment holds
/// the token, and a second look shows the same process.
pub proof fn members_hold_the_token(
    pgid: u32,
    token: Seq<char>,
    seen: GroupObservation,
    member: ProcessIdentity,
)
    ensures
        observed_member(pgid, token, seen) == Some(member) <==> (seen.stat matches Some(line) && (
        stat_of(seen.pid, line@) matches Some(found) && found.group == pgid && found.identity
            == member)) && (seen.environment matches Some(environment) && pieces_at(
            environment@,
            0u8,
        ).contains(encode_utf8("PORTBOARD_RUN_TOKEN="@ + token))) && (
        seen.stat_again matches Some(again) && (stat_of(seen.pid, again@) matches Some(second)
            && second.identity == member)),
{
    if let Some(line) = seen.stat {
        if let Some(found) = stat_of(seen.pid, line@) {
            assert(found.identity.pid == seen.pid);
        }
    }
}

/// The members of a group are all the processes that were seen to be one, and no others.
pub proof fn every_member_is_found(
    pgid: u32,
    token: Seq<char>,
    seen: Seq<GroupObservation>,
    member: ProcessIdentity,
)
    ensures
        observed_members(pgid, token, seen).contains(member) <==> exists|i: int|
            0 <= i < seen.len() && #[trigger] observed_member(pgid, token, seen[i]) == Some(member),
    decreases seen.len(),
{
    if seen.len() > 0 {
        let fewer = seen.drop_last();
        let last = seen.len() - 1;
        every_member_is_found(pgid, token, fewer, member);
        let before = observed_members(pgid, token, fewer);
        let after = observed_members(pgid, token, seen);
        if before.contains(member) {
            let at = choose|at: int| 0 <= at < before.len() && before[at] == member;
            assert(after[at] == member);
            let i = choose|i: int|
                0 <= i < fewer.len() && #[trigger] observed_member(pgid, token, fewer[i]) == Some(
                    member,
                );
            assert(observed_member(pgid, token, seen[i]) == Some(member));
        } else {
            if after.contains(member) {
                let at = choose|at: int| 0 <= at < after.len() && after[at] == member;
                if at < before.len() {
                    assert(before[at] == member);
                }
                assert(observed_member(pgid, token, seen[last]) == Some(member));
            }
            assert forall|i: int|
                0 <= i < seen.len() && #[trigger] observed_member(pgid, token, seen[i]) == Some(
                    member,
                ) implies after.contains(member) by {
                if i < last {
                    assert(observed_member(pgid, token, fewer[i]) == Some(member));
                } else {
                    assert(after[before.len() as int] == member);
                }
            }
        }
    }
}

} // verus!
