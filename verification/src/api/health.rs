//! Health check.
use vstd::prelude::*;

verus! {

/// Machine counts of the health response.
#[derive(Debug, Clone, Copy, PartialEq, Eq, Structural)]
pub struct MachineCountsResponse {
    /// Recorded machines.
    pub total: usize,
    /// Machines whose process is alive.
    pub running: usize,
}

/// Number of machines that are alive.
pub open spec fn alive_count(alive: Seq<bool>) -> nat
    decreases alive.len(),
{
    if alive.len() == 0 {
        0
    } else {
        alive_count(alive.drop_last()) + if alive.last() {
            1nat
        } else {
            0
        }
    }
}

/// Record the server start time, in nanoseconds of a monotonic clock. Only the
/// first call counts.
pub fn mark_server_start(start: &mut Option<u64>, now: u64)
    ensures
        *final(start) == (match *old(start) {
            Some(first) => Some(first),
            None => Some(now),
        }),
{
    if start.is_none() {
        *start = Some(now);
    }
}

/// Whole seconds between two times in nanoseconds.
pub open spec fn seconds_between(start: u64, now: u64) -> u64 {
    if now <= start {
        0
    } else {
        ((now - start) / 1_000_000_000) as u64
    }
}

/// Seconds since the server start, where it was recorded.
pub fn uptime_seconds(start: Option<u64>, now: u64) -> (r: Option<u64>)
    ensures
        r == match start {
            Some(first) => Some(
                (crate::admission::calibration::elapsed_since(now, first) / 1_000_000_000) as u64,
            ),
            None => None,
        },
        start matches Some(first) ==> r == Some(seconds_between(first, now)),
{
    match start {
        Some(first) => Some(now.saturating_sub(first) / 1_000_000_000),
        None => None,
    }
}

/// Machine counts, by whether each recorded machine's process is alive.
pub fn machine_counts(alive: &Vec<bool>) -> (r: MachineCountsResponse)
    ensures
        r.total == alive@.len(),
        r.running == alive_count(alive@),
        r.running <= r.total,
{
    let mut running: usize = 0;
    assert(alive@.take(0) =~= Seq::empty());
    for i in 0..alive.len()
        invariant
            running <= i,
            running == alive_count(alive@.take(i as int)),
    {
        assert(alive@.take(i + 1).drop_last() =~= alive@.take(i as int));
        if alive[i] {
            running += 1;
        }
    }
    assert(alive@.take(alive@.len() as int) =~= alive@);
    MachineCountsResponse { total: alive.len(), running }
}

/// Uptime is counted in whole seconds, rounded down.
pub proof fn law_uptime_counts_whole_seconds(start: u64, seconds: u64, rest: u64)
    requires
        rest < 1_000_000_000,
        start + seconds * 1_000_000_000 + rest <= u64::MAX,
    ensures
        seconds_between(start, (start + seconds * 1_000_000_000 + rest) as u64) == seconds,
{
}

/// A further machine counts as running exactly if it is alive.
pub proof fn law_living_machines_are_running(alive: Seq<bool>, next: bool)
    ensures
        alive_count(Seq::empty()) == 0,
        alive_count(alive.push(next)) == alive_count(alive) + if next {
            1nat
        } else {
            0
        },
{
    assert(alive.push(next).drop_last() =~= alive);
}

} // verus!
