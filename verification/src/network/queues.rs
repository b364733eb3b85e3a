//! Queues and counters of one guest NIC.
use vstd::prelude::*;
use crate::network::frame_queue::FrameQueue;

verus! {

/// Default queue capacity for guest/host ethernet frames.
pub const DEFAULT_FRAME_QUEUE_CAPACITY: usize = 1024;

/// Queues of the host-side virtio-net runtime.
///
/// ```text
/// queues  = ownership transfer for frame bytes
/// shutdown= sticky flag; whoever sets it wakes all blocked waiters
/// ```
#[derive(Debug)]
pub struct NetworkFrameQueues {
    /// Raw ethernet frames emitted by the guest and waiting for smoltcp.
    pub guest_to_host: FrameQueue,
    /// Raw ethernet frames emitted by smoltcp and waiting for libkrun.
    pub host_to_guest: FrameQueue,
    /// The runtime should shut down.
    pub shutting_down: bool,
    /// Cumulative guest-outbound (egress) bytes for this NIC since boot, at the
    /// ethernet-frame level. Used for per-machine egress billing/telemetry.
    pub egress_bytes: u64,
}

/// The counter after `n` more bytes; it wraps around.
pub open spec fn counted(total: u64, n: u64) -> u64 {
    if total + n > u64::MAX {
        (total + n - 0x1_0000_0000_0000_0000) as u64
    } else {
        (total + n) as u64
    }
}

impl NetworkFrameQueues {
    /// Neither queue is overfull.
    pub open spec fn wf(&self) -> bool {
        self.guest_to_host.wf() && self.host_to_guest.wf()
    }

    /// A queue set for the threads of one NIC to share.
    pub fn shared(capacity: usize) -> (r: Self)
        requires
            0 < capacity,
            capacity * 32 <= isize::MAX,
        ensures
            r.guest_to_host@ == Seq::<Seq<u8>>::empty(),
            r.host_to_guest@ == Seq::<Seq<u8>>::empty(),
            r.guest_to_host.room() == capacity,
            r.host_to_guest.room() == capacity,
            !r.shutting_down,
            r.egress_bytes == 0,
            r.wf(),
    {
        NetworkFrameQueues {
            guest_to_host: FrameQueue::new(capacity),
            host_to_guest: FrameQueue::new(capacity),
            shutting_down: false,
            egress_bytes: 0,
        }
    }

    /// Add `n` guest-outbound bytes to the egress counter.
    pub fn add_egress_bytes(&mut self, n: u64)
        ensures
            *final(self) == (NetworkFrameQueues {
                egress_bytes: counted(old(self).egress_bytes, n),
                ..*old(self)
            }),
    {
        self.egress_bytes = self.egress_bytes.wrapping_add(n);
    }

    /// Cumulative guest-outbound bytes for this NIC since boot.
    pub fn egress_bytes(&self) -> (r: u64)
        ensures
            r == self.egress_bytes,
    {
        self.egress_bytes
    }

    /// Mark the runtime as shutting down. The caller then wakes all waiters:
    /// without that, a thread blocked waiting on socket readiness could sleep
    /// indefinitely.
    pub fn begin_shutdown(&mut self)
        ensures
            *final(self) == (NetworkFrameQueues { shutting_down: true, ..*old(self) }),
    {
        self.shutting_down = true;
    }

    /// Whether shutdown has been requested.
    pub fn is_shutting_down(&self) -> (r: bool)
        ensures
            r == self.shutting_down,
    {
        self.shutting_down
    }
}

/// A wait ended because of a wake: some source is ready, or the deadline was not
/// reached.
pub open spec fn was_woken(ready: nat, timeout: Option<u64>, elapsed: u64) -> bool {
    ready > 0 || !(timeout matches Some(deadline) && elapsed >= deadline)
}

/// Whether a wait ended because of a wake, by the number of ready sources, the
/// deadline and the time that the wait took (both in nanoseconds).
///
/// A wake reports no ready source, so it is told by an early return: the wait
/// unblocked before the deadline, or had none.
pub fn woken(ready: usize, timeout: Option<u64>, elapsed: u64) -> (r: bool)
    ensures
        r == (ready > 0 || match timeout {
            Some(deadline) => elapsed < deadline,
            None => true,
        }),
        r == was_woken(ready as nat, timeout, elapsed),
{
    if ready > 0 {
        return true;
    }
    match timeout {
        None => true,
        Some(deadline) => elapsed < deadline,
    }
}

/// Counting in two steps is counting once, as long as the sum fits.
pub proof fn law_counting_is_cumulative(total: u64, a: u64, b: u64)
    requires
        a + b <= u64::MAX,
    ensures
        counted(counted(total, a), b) == counted(total, (a + b) as u64),
{
}

/// The counter grows by what is counted, modulo 2^64.
pub proof fn law_counter_grows_by_what_is_counted(total: u64, n: u64)
    ensures
        total + n <= u64::MAX ==> counted(total, n) == total + n,
        counted(total, n) as int == (total as int + n as int) % 0x1_0000_0000_0000_0000,
        n > 0 ==> counted(total, n) != total,
{
}

/// Only a wait that saw nothing and lasted to its deadline was not woken.
pub proof fn law_silence_until_the_deadline_is_no_wake(
    ready: nat,
    timeout: Option<u64>,
    elapsed: u64,
)
    ensures
        !was_woken(ready, timeout, elapsed) <==> ready == 0 && timeout is Some && timeout->0
            <= elapsed,
{
}

} // verus!
