//! The reservation of a launch target while it is being launched.
use vstd::prelude::*;
use vstd::string::*;
use vstd::utf8::*;

use crate::launch_target_stop::{
    captured_processes_have_their_turn, shutdown_run, shutdowns_are_confirmed, skipped, Shutdown,
    ShutdownEvent, ShutdownPhase,
};
use crate::numbers::{
    decimal, decimal_round_trip, lemma_decimal_digits, number_value, parse_number, push_decimal,
};
use crate::portboard_error::{failure, PortboardError};
use crate::process_identity::{
    captured_trees_are_whole, lives, selects_pid, settles, ProcessIdentity, ProcessStat,
};
use crate::state_paths::{below_path, path_below};
use crate::text::{
    characters, first_index, is_blank, is_white_space, lemma_first_index_bounds, split_at_first,
    split_first, texts_part_at_the_first_separator, trim_characters, trimmed,
    trimming_leaves_the_text, without_leading_space, without_trailing_space,
};

verus! {

/// What a lock file holds while a target is reserved for a process.
pub open spec fn reservation_text(identity: ProcessIdentity) -> Seq<char> {
    decimal(identity.pid as nat) + " "@ + decimal(identity.start_time as nat) + "\n"@
}

/// The process for which the contents of a lock file reserve a target.
pub open spec fn reservation_in(contents: Seq<char>) -> Option<ProcessIdentity> {
    match split_first(contents, ' ') {
        Some((pid, start_time)) => match (
            number_value(pid, 10, u32::MAX as nat),
            number_value(trimmed(start_time), 10, u64::MAX as nat),
        ) {
            (Some(pid), Some(start_time)) => Some(
                ProcessIdentity { pid: pid as u32, start_time: start_time as u64 },
            ),
            _ => None,
        },
        None => None,
    }
}

/// Reads the contents of a lock file.
pub fn read_reservation(contents: &str) -> (result: Option<ProcessIdentity>)
    ensures
        result == reservation_in(contents@),
{
    let source = characters(contents);
    match split_at_first(source.as_slice(), ' ') {
        Some((pid, start_time)) => {
            let bare = trim_characters(start_time.as_slice());
            match (
                parse_number(pid.as_slice(), 10, u32::MAX as u64),
                parse_number(bare.as_slice(), 10, u64::MAX),
            ) {
                (Some(pid), Some(start_time)) => Some(
                    ProcessIdentity { pid: pid as u32, start_time },
                ),
                _ => None,
            }
        },
        None => None,
    }
}

/// What the lock file of one worktree target holds. While it is held, nobody else scans for
/// the target and starts it.
#[derive(Debug, PartialEq, Eq)]
pub struct LaunchTargetLock {
    pub contents: String,
}

/// The reservation that is still active: that of a process which has the same start time now.
pub open spec fn active_in(contents: Seq<char>, current: Option<u64>) -> Option<ProcessIdentity> {
    match reservation_in(contents) {
        Some(identity) => if current == Some(identity.start_time) {
            Some(identity)
        } else {
            None
        },
        None => None,
    }
}

/// What a lock file holds once it was looked at: a stale reservation is removed.
pub open spec fn settled_contents(contents: Seq<char>, current: Option<u64>) -> Seq<char> {
    if active_in(contents, current) is Some {
        contents
    } else {
        Seq::empty()
    }
}

/// What a lock file holds once the launch that it reserves was canceled: an active reservation
/// is cleared only where the shutdown of its processes is confirmed.
pub open spec fn canceled_contents(
    contents: Seq<char>,
    current: Option<u64>,
    phase: ShutdownPhase,
) -> Seq<char> {
    if active_in(contents, current) is Some && !(phase is Stopped) {
        contents
    } else {
        Seq::empty()
    }
}

impl LaunchTargetLock {
    /// The lock with what its file holds.
    pub fn acquire(contents: String) -> (result: Self)
        ensures
            result.contents@ == contents@,
    {
        LaunchTargetLock { contents }
    }

    /// The process whose start time decides whether the reservation is active.
    pub fn reserved_pid(&self) -> (result: Option<u32>)
        ensures
            result == (match reservation_in(self.contents@) {
                Some(identity) => Some(identity.pid),
                None => None,
            }),
    {
        match read_reservation(self.contents.as_str()) {
            Some(identity) => Some(identity.pid),
            None => None,
        }
    }

    /// The exact launcher that holds the reservation, given the start time that the reserved
    /// pid has now. Stale reservations are removed while locked.
    pub fn active_reservation_identity(&mut self, current: Option<u64>) -> (result: Option<
        ProcessIdentity,
    >)
        ensures
            result == active_in(old(self).contents@, current),
            final(self).contents@ == settled_contents(old(self).contents@, current),
    {
        let found = match read_reservation(self.contents.as_str()) {
            Some(identity) => match current {
                Some(start_time) => if start_time == identity.start_time {
                    Some(identity)
                } else {
                    None
                },
                None => None,
            },
            None => None,
        };
        if found.is_none() {
            self.clear();
        }
        found
    }

    /// Returns true while a previously launched root process has the same PID
    /// and Linux start time.
    pub fn has_active_reservation(&mut self, current: Option<u64>) -> (result: bool)
        ensures
            result == (active_in(old(self).contents@, current) is Some),
            final(self).contents@ == settled_contents(old(self).contents@, current),
    {
        self.active_reservation_identity(current).is_some()
    }

    /// Returns the reserved launcher PID while its Linux process identity matches.
    pub fn active_reservation_pid(&mut self, current: Option<u64>) -> (result: Option<u32>)
        ensures
            result == (match active_in(old(self).contents@, current) {
                Some(identity) => Some(identity.pid),
                None => None,
            }),
            final(self).contents@ == settled_contents(old(self).contents@, current),
    {
        match self.active_reservation_identity(current) {
            Some(identity) => Some(identity.pid),
            None => None,
        }
    }

    /// Cancels the launch of an active reservation, given the start time that the reserved pid
    /// had when it was looked at and the shutdown of the launcher and everything below it. The
    /// reservation is retained until they are confirmed gone.
    pub fn cancel_active_reservation(
        &mut self,
        current: Option<u64>,
        shutdown: &Shutdown,
    ) -> (result: Result<Option<u32>, PortboardError>)
        requires
            active_in(old(self).contents@, current) is Some ==> shutdown@.phase is Stopped
                || shutdown@.phase is Survived,
        ensures
            final(self).contents@ == canceled_contents(
                old(self).contents@,
                current,
                shutdown@.phase,
            ),
            match (result, active_in(old(self).contents@, current)) {
                (Ok(None), None) => true,
                (Ok(Some(pid)), Some(identity)) => shutdown@.phase is Stopped && pid
                    == identity.pid,
                (Err(error), Some(_)) => shutdown@.phase is Survived && error@ == failure(
                    "Portboard could not confirm process exit after SIGKILL"@,
                ),
                _ => false,
            },
    {
        let identity = match self.active_reservation_identity(current) {
            Some(identity) => identity,
            None => {
                return Ok(None);
            },
        };
        match shutdown.outcome() {
            Ok(_) => {
                self.clear();
                Ok(Some(identity.pid))
            },
            Err(error) => Err(error),
        }
    }

    /// Ties the in-flight reservation to a concrete launched process identity, given its start
    /// time. Returns false when a short-lived process exited before it could be read.
    pub fn reserve_process(&mut self, pid: u32, current: Option<u64>) -> (result: bool)
        ensures
            result == (current is Some),
            final(self).contents@ == (match current {
                Some(start_time) => reservation_text(ProcessIdentity { pid, start_time }),
                None => Seq::empty(),
            }),
    {
        match current {
            Some(start_time) => {
                let mut text = String::new();
                push_decimal(&mut text, pid as u64);
                text.append(" ");
                push_decimal(&mut text, start_time);
                text.append("\n");
                proof {
                    assert(text@ =~= reservation_text(ProcessIdentity { pid, start_time }));
                }
                self.contents = text;
                true
            },
            None => {
                self.clear();
                false
            },
        }
    }

    /// Clears a reservation only after its launcher and stopped run are confirmed gone.
    pub fn clear(&mut self)
        ensures
            final(self).contents@ == Seq::<char>::empty(),
    {
        self.contents = String::new();
        proof {
            assert(self.contents@ =~= Seq::<char>::empty());
        }
    }
}

/// The name of the lock file of a target.
pub open spec fn lock_name(target_id: Seq<char>) -> Seq<char> {
    target_id + ".lock"@
}

pub fn lock_file_name(target_id: &str) -> (result: String)
    ensures
        result@ == lock_name(target_id@),
{
    let mut name = target_id.to_owned();
    name.append(".lock");
    name
}

/// Where the lock files of a worktree stand.
pub fn lock_directory(state_directory: &[u8]) -> (result: Vec<u8>)
    ensures
        result@ == below_path(state_directory@, "locks"@),
{
    path_below(state_directory, "locks")
}

/// A reservation is read back as it was written.
pub proof fn reservations_are_read_back(identity: ProcessIdentity)
    ensures
        reservation_in(reservation_text(identity)) == Some(identity),
{
    let pid = decimal(identity.pid as nat);
    let start = decimal(identity.start_time as nat);
    let text = reservation_text(identity);
    reveal_strlit(" ");
    reveal_strlit("\n");
    lemma_decimal_digits(identity.pid as nat);
    lemma_decimal_digits(identity.start_time as nat);
    lemma_no_space(identity.pid as nat);
    lemma_no_space(identity.start_time as nat);
    lemma_first_index_bounds(text, ' ', 0);
    let at = first_index(text, ' ', 0);
    assert(text[pid.len() as int] == ' ');
    assert forall|i: int| 0 <= i < pid.len() implies text[i] != ' ' by {
        assert(text[i] == pid[i]);
        assert(!is_white_space(pid[i]));
    }
    assert(at == pid.len());
    assert(text.take(at) =~= pid);
    assert(text.skip(at + 1) =~= start + "\n"@);
    lemma_trims_line_end(start);
    decimal_round_trip(identity.pid as nat, u32::MAX as nat);
    decimal_round_trip(identity.start_time as nat, u64::MAX as nat);
}

proof fn lemma_no_space(number: nat)
    ensures
        forall|i: int|
            0 <= i < decimal(number).len() ==> !is_white_space(#[trigger] decimal(number)[i]),
{
    lemma_decimal_digits(number);
    assert forall|i: int| 0 <= i < decimal(number).len() implies !is_white_space(
        #[trigger] decimal(number)[i],
    ) by {
        assert(crate::numbers::digit_value(decimal(number)[i], 10) is Some);
    }
}

proof fn lemma_trims_line_end(text: Seq<char>)
    requires
        text.len() > 0,
        forall|i: int| 0 <= i < text.len() ==> !is_white_space(#[trigger] text[i]),
    ensures
        trimmed(text + "\n"@) == text,
{
    reveal_strlit("\n");
    let whole = text + "\n"@;
    assert(whole[0] == text[0]);
    assert(!is_white_space(whole.first()));
    assert(without_leading_space(whole) == whole);
    assert(whole.last() == '\n');
    assert(is_white_space('\n'));
    assert(whole.drop_last() =~= text);
    assert(!is_white_space(text.last())) by {
        assert(text.last() == text[text.len() - 1]);
    }
    assert(without_trailing_space(text) == text);
}

/// A reservation counts for exactly the process that it was made for: not for another process
/// that was given the same pid later.
pub proof fn reservations_track_one_process(identity: ProcessIdentity, current: Option<u64>)
    ensures
        active_in(reservation_text(identity), current) == (if current == Some(
            identity.start_time,
        ) {
            Some(identity)
        } else {
            None
        }),
{
    reservations_are_read_back(identity);
}

/// A canceled reservation is cleared only behind the exit of what it reserved: the last look
/// found none of the processes live that were asked to end.
pub proof fn reservations_outlast_their_launcher(
    contents: Seq<char>,
    current: Option<u64>,
    captured: Seq<ProcessIdentity>,
    events: Seq<ShutdownEvent>,
)
    requires
        active_in(contents, current) is Some,
        !events.contains(ShutdownEvent::Checked { some_live: false }),
    ensures
        canceled_contents(contents, current, shutdown_run(captured, events).phase) == contents,
{
    shutdowns_are_confirmed(captured, events);
}

/// Where the shutdown of a reserved launcher is confirmed, the reservation is cleared and active
/// for no process any more. The launcher and everything below it were captured, each of them
/// was asked to end or was gone already, and none that was asked to end was live at the last
/// look.
pub proof fn canceled_launches_are_gone(
    identity: ProcessIdentity,
    table: Seq<ProcessStat>,
    start: Seq<ProcessIdentity>,
    passes: nat,
    captured: Seq<ProcessIdentity>,
    events: Seq<ShutdownEvent>,
    later: Option<u64>,
)
    requires
        settles(seq![identity], table, start, passes, captured),
        captured.len() <= usize::MAX,
        shutdown_run(captured, events).phase is Stopped,
    ensures
        ({
            let shutdown = shutdown_run(captured, events);
            let contents = canceled_contents(
                reservation_text(identity),
                Some(identity.start_time),
                shutdown.phase,
            );
            &&& contents == Seq::<char>::empty()
            &&& active_in(contents, later) is None
            &&& lives(table, identity) ==> captured.contains(identity)
            &&& forall|i: int|
                0 <= i < table.len() && selects_pid(captured, (#[trigger] table[i]).parent)
                    ==> captured.contains(table[i].identity)
            &&& forall|i: int|
                0 <= i < captured.len() ==> shutdown.signaled.contains(#[trigger] captured[i])
                    || skipped(captured, events).contains(captured[i])
            &&& events.contains(ShutdownEvent::Checked { some_live: false })
        }),
{
    captured_trees_are_whole(seq![identity], table, start, passes, captured);
    captured_processes_have_their_turn(captured, events);
    shutdowns_are_confirmed(captured, events);
    assert(seq![identity][0] == identity);
    lemma_first_index_bounds(Seq::<char>::empty(), ' ', 0);
}

/// A reservation that was written stays in its file exactly while its process has the start time
/// that it had then: otherwise it is gone once it was looked at. Canceling a launch leaves it
/// there only where it is active and its processes were not confirmed gone.
pub proof fn reservations_hold_while_their_process_lives(
    identity: ProcessIdentity,
    current: Option<u64>,
    phase: ShutdownPhase,
)
    ensures
        settled_contents(reservation_text(identity), current) == (if current == Some(
            identity.start_time,
        ) {
            reservation_text(identity)
        } else {
            Seq::empty()
        }),
        canceled_contents(reservation_text(identity), current, phase) == (if current == Some(
            identity.start_time,
        ) && phase != ShutdownPhase::Stopped {
            reservation_text(identity)
        } else {
            Seq::empty()
        }),
{
    reservations_are_read_back(identity);
}

/// Every target has a lock file of its own.
pub proof fn locks_tell_targets_apart(left: Seq<char>, right: Seq<char>)
    requires
        lock_name(left) == lock_name(right),
    ensures
        left == right,
{
    let name = lock_name(left);
    let count = name.len() - ".lock"@.len();
    assert(name.take(count) =~= left);
    assert(lock_name(right).take(count) =~= right);
}

/// A reservation is what stands in the file exactly where it holds a pid, a space, and a start
/// time with nothing but white space around it.
pub proof fn reservations_name_pid_and_start_time(
    pid: Seq<char>,
    lead: Seq<char>,
    start_time: Seq<char>,
    trail: Seq<char>,
    identity: ProcessIdentity,
)
    requires
        !pid.contains(' '),
        is_blank(lead),
        is_blank(trail),
        start_time.len() > 0 ==> !is_white_space(start_time.first()) && !is_white_space(
            start_time.last(),
        ),
    ensures
        reservation_in(pid + seq![' '] + (lead + start_time + trail)) == Some(identity)
            <==> number_value(pid, 10, u32::MAX as nat) == Some(identity.pid as nat)
            && number_value(start_time, 10, u64::MAX as nat) == Some(identity.start_time as nat),
        reservation_in(pid) is None,
{
    texts_part_at_the_first_separator(pid, ' ', lead + start_time + trail);
    trimming_leaves_the_text(lead, start_time, trail);
}

} // verus!
