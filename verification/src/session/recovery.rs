//! Which sessions that were left behind are removed.

use crate::size::TimeSpan;
use vstd::prelude::*;

verus! {

/// The time after which a session that does not describe itself counts as left behind: a day.
pub const UNREADABLE_AGE: u64 = 86_400;

/// The description of a session.
#[derive(Debug, PartialEq, Eq)]
pub struct SessionMetadata {
    pub session_id: String,
    pub pid: u32,
    pub created_at: u64,
    pub temporary: bool,
}

/// What came of asking the system whether a process can be signalled.
#[derive(Clone, Copy, Debug, PartialEq, Eq, Structural)]
pub enum Probe {
    /// The process is there.
    Delivered,
    /// The process is there, but belongs to someone else.
    Forbidden,
    /// There is no such process, or the system cannot tell.
    Failed,
}

/// What is to be done about a directory among the sessions.
#[derive(Clone, Copy, Debug, PartialEq, Eq, Structural)]
pub enum Verdict {
    /// It stays.
    Leave,
    /// It is removed if its lock can be taken. The description is `readable` or not.
    Claim { readable: bool },
}

/// The number of a process as the system takes it, which has one bit less.
pub open spec fn system_pid(pid: u32) -> int {
    if pid <= i32::MAX {
        pid as int
    } else {
        pid - 0x1_0000_0000
    }
}

/// The number by which the system is asked for a process; `None` if no process has that number.
pub fn probed_process(pid: u32) -> (res: Option<i32>)
    ensures
        pid == 0 ==> res is None,
        pid != 0 ==> (res matches Some(number) && number == system_pid(pid)),
{
    if pid == 0 {
        None
    } else if pid <= i32::MAX as u32 {
        Some(pid as i32)
    } else {
        Some((pid as i64 - 0x1_0000_0000) as i32)
    }
}

/// Whether a process is alive, given what came of asking for it.
pub open spec fn is_alive(pid: u32, probe: Probe) -> bool {
    pid != 0 && !(probe is Failed)
}

/// Whether a process is alive, given what came of asking for it.
pub fn process_is_alive(pid: u32, probe: Probe) -> (res: bool)
    ensures
        res == is_alive(pid, probe),
{
    if pid == 0 {
        return false;
    }
    match probe {
        Probe::Delivered | Probe::Forbidden => true,
        Probe::Failed => false,
    }
}

/// Whether at least the given time has passed.
pub open spec fn has_passed(elapsed: TimeSpan, age: TimeSpan) -> bool {
    elapsed.secs > age.secs || elapsed.secs == age.secs && elapsed.nanos >= age.nanos
}

/// Whether a file is at least of the given age. The time since its last change is unknown if the
/// file cannot be looked at, or if it was changed in the future.
pub fn is_older_than(elapsed: Option<TimeSpan>, age: TimeSpan) -> (res: bool)
    ensures
        res == (elapsed matches Some(elapsed) && has_passed(elapsed, age)),
{
    match elapsed {
        Some(elapsed) => elapsed.secs > age.secs || elapsed.secs == age.secs && elapsed.nanos
            >= age.nanos,
        None => false,
    }
}

/// What is to be done about an entry among the sessions: directories of temporary sessions whose
/// process is gone are removed, and so are those that have not described themselves for a day.
pub open spec fn verdict(
    is_directory: bool,
    metadata: Option<SessionMetadata>,
    probe: Probe,
    elapsed: Option<TimeSpan>,
) -> Verdict {
    if !is_directory {
        Verdict::Leave
    } else {
        match metadata {
            Some(metadata) => if metadata.temporary && !is_alive(metadata.pid, probe) {
                Verdict::Claim { readable: true }
            } else {
                Verdict::Leave
            },
            None => match elapsed {
                Some(elapsed) => if elapsed.secs >= UNREADABLE_AGE {
                    Verdict::Claim { readable: false }
                } else {
                    Verdict::Leave
                },
                None => Verdict::Leave,
            },
        }
    }
}

/// Decides about an entry among the sessions, given its description if that can be read, what
/// came of asking for its process, and the time since its description was changed.
pub fn examine(
    is_directory: bool,
    metadata: Option<&SessionMetadata>,
    probe: Probe,
    elapsed: Option<TimeSpan>,
) -> (res: Verdict)
    ensures
        res == verdict(
            is_directory,
            match metadata {
                Some(metadata) => Some(*metadata),
                None => None,
            },
            probe,
            elapsed,
        ),
{
    if !is_directory {
        return Verdict::Leave;
    }
    match metadata {
        Some(description) => {
            if !description.temporary || process_is_alive(description.pid, probe) {
                return Verdict::Leave;
            }
            Verdict::Claim { readable: true }
        },
        None => {
            if !is_older_than(elapsed, TimeSpan { secs: UNREADABLE_AGE, nanos: 0 }) {
                return Verdict::Leave;
            }
            Verdict::Claim { readable: false }
        },
    }
}

/// Whether a directory is removed, given whether its lock file could be opened and locked.
pub open spec fn removes(verdict: Verdict, opened: bool, locked: bool) -> bool {
    verdict is Claim && opened && locked
}

/// Decides whether a directory is removed, given whether its lock file could be opened and
/// locked.
pub fn decide(verdict: Verdict, opened: bool, locked: bool) -> (res: bool)
    ensures
        res == removes(verdict, opened, locked),
{
    match verdict {
        Verdict::Leave => false,
        Verdict::Claim { .. } => opened && locked,
    }
}

/// The session of a process that is alive is never removed, nor is one that is not temporary, nor
/// one whose description cannot be read but is less than a day old, nor one whose lock is held.
pub proof fn sessions_in_use_stay(
    is_directory: bool,
    metadata: Option<SessionMetadata>,
    probe: Probe,
    elapsed: Option<TimeSpan>,
    opened: bool,
    locked: bool,
)
    requires
        ({
            ||| metadata matches Some(metadata) && is_alive(metadata.pid, probe)
            ||| metadata matches Some(metadata) && !metadata.temporary
            ||| metadata is None && (elapsed matches Some(elapsed) ==> elapsed.secs < UNREADABLE_AGE)
            ||| !locked
        }),
    ensures
        !removes(verdict(is_directory, metadata, probe, elapsed), opened, locked),
{
}

/// The temporary session of a process that is gone is removed if its lock can be taken.
pub proof fn sessions_of_dead_processes_go(
    metadata: SessionMetadata,
    probe: Probe,
    elapsed: Option<TimeSpan>,
)
    requires
        metadata.temporary,
        !is_alive(metadata.pid, probe),
    ensures
        removes(verdict(true, Some(metadata), probe, elapsed), true, true),
{
}

/// Calls `std::time::SystemTime::elapsed` on the start of Unix time. The result is `None` if the
/// clock stands before it. Nothing is claimed of it: it depends on the time.
#[verifier::external_body]
fn read_clock() -> (res: Option<TimeSpan>) {
    match std::time::UNIX_EPOCH.elapsed() {
        Ok(elapsed) => Some(TimeSpan { secs: elapsed.as_secs(), nanos: elapsed.subsec_nanos() }),
        Err(_) => None,
    }
}

/// Whether the clock can have shown this reading.
pub closed spec fn clock_showed(reading: Option<TimeSpan>) -> bool {
    call_ensures(read_clock, (), reading)
}

/// The number of seconds that a reading of the clock stands for: the whole ones since the start
/// of Unix time, or zero if the clock stands before it.
pub open spec fn seconds_of(reading: Option<TimeSpan>) -> u64 {
    match reading {
        Some(elapsed) => elapsed.secs,
        None => 0,
    }
}

/// The number of seconds that a reading of the clock stands for.
pub fn clock_seconds(reading: Option<TimeSpan>) -> (res: u64)
    ensures
        res == seconds_of(reading),
{
    match reading {
        Some(elapsed) => elapsed.secs,
        None => 0,
    }
}

/// The number of seconds that a clock shows.
fn seconds_by<F: Fn() -> Option<TimeSpan>>(clock: F) -> (res: u64)
    requires
        call_requires(clock, ()),
    ensures
        exists|reading: Option<TimeSpan>|
            #[trigger] call_ensures(clock, (), reading) && res == seconds_of(reading),
{
    let reading: Option<TimeSpan> = clock();
    clock_seconds(reading)
}

/// The number of seconds since the start of Unix time; zero if the clock stands before it.
pub fn now_unix_seconds() -> (res: u64)
    ensures
        exists|reading: Option<TimeSpan>|
            #[trigger] clock_showed(reading) && res == seconds_of(reading),
{
    let res: u64 = seconds_by(read_clock);
    proof {
        let reading = choose|reading: Option<TimeSpan>|
            #[trigger] call_ensures(read_clock, (), reading) && res == seconds_of(reading);
        assert(clock_showed(reading));
    }
    res
}

/// The description of a session that starts now.
pub fn describe(session_id: String, pid: u32, created_at: u64) -> (res: SessionMetadata)
    ensures
        res == (SessionMetadata { session_id, pid, created_at, temporary: true }),
{
    SessionMetadata { session_id, pid, created_at, temporary: true }
}

/// What is decided about an entry, in all cases: nothing but directories is touched; a session
/// that describes itself is claimed exactly if it is temporary and its process is gone; one that
/// does not, exactly if its description was last changed at least a day ago.
pub proof fn only_abandoned_sessions_are_claimed(
    is_directory: bool,
    metadata: Option<SessionMetadata>,
    probe: Probe,
    elapsed: Option<TimeSpan>,
)
    ensures
        !is_directory ==> verdict(is_directory, metadata, probe, elapsed) == Verdict::Leave,
        is_directory && metadata is Some ==> (verdict(is_directory, metadata, probe, elapsed)
            == Verdict::Claim { readable: true } <==> metadata->0.temporary && (metadata->0.pid == 0
            || probe == Probe::Failed)),
        is_directory && metadata is None ==> (verdict(is_directory, metadata, probe, elapsed)
            == Verdict::Claim { readable: false } <==> (elapsed matches Some(elapsed)
            && elapsed.secs >= 24 * 60 * 60)),
        verdict(is_directory, metadata, probe, elapsed) matches Verdict::Claim { readable }
            ==> readable == metadata is Some,
{
}

/// A process is alive if it can be signalled, or if only the right to do so is missing. No
/// process has the number zero.
pub proof fn processes_are_alive_if_they_answer(pid: u32)
    ensures
        pid > 0 ==> is_alive(pid, Probe::Delivered) && is_alive(pid, Probe::Forbidden) && !is_alive(
            pid,
            Probe::Failed,
        ),
        !is_alive(0, Probe::Delivered) && !is_alive(0, Probe::Forbidden) && !is_alive(
            0,
            Probe::Failed,
        ),
{
}

/// The number that the system is asked for has the same 32 bits as the one that was stored.
pub proof fn process_numbers_keep_their_bits(pid: u32)
    ensures
        i32::MIN <= system_pid(pid) <= i32::MAX,
        system_pid(pid) == pid || system_pid(pid) + 0x1_0000_0000 == pid,
{
}

/// Ages are compared by the whole time that has passed.
pub proof fn ages_are_compared_as_times(elapsed: TimeSpan, age: TimeSpan)
    requires
        elapsed.nanos < 1_000_000_000,
        age.nanos < 1_000_000_000,
    ensures
        has_passed(elapsed, age) <==> elapsed.secs * 1_000_000_000 + elapsed.nanos >= age.secs
            * 1_000_000_000 + age.nanos,
{
}

/// A directory is removed only with its lock, and whenever it is claimed and locked.
pub proof fn only_locked_directories_are_removed(verdict: Verdict, opened: bool, locked: bool)
    ensures
        removes(verdict, opened, locked) ==> opened && locked && verdict != Verdict::Leave,
        verdict != Verdict::Leave && opened && locked ==> removes(verdict, opened, locked),
{
}

} // verus!
