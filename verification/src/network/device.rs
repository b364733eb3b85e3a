//! The NIC as the TCP/IP stack sees it.
//!
//! ```text
//! guest_to_host queue --stage_next_frame--> receive
//! transmit/emit_frame --host_to_guest queue--> frame writer
//! ```
use vstd::prelude::*;
use crate::network::queues::NetworkFrameQueues;

verus! {

/// Bytes of an ethernet header.
pub const ETHERNET_HEADER_LEN: usize = 14;

/// Device backed by frame queues.
///
/// A frame is staged because the poll loop sometimes needs to inspect it before
/// handing it to the stack: it classifies guest TCP SYN and DNS packets before
/// consumption so it can prepare relay/socket state.
#[derive(Debug)]
pub struct VirtioNetworkDevice {
    /// Guest IP MTU.
    pub mtu: usize,
    /// Frame that the poll loop may inspect.
    pub staged_guest_frame: Option<Vec<u8>>,
    /// Set when the stack emitted at least one frame for the guest.
    pub frames_emitted: bool,
}

/// One guest ethernet frame on its way into the stack.
#[derive(Debug)]
pub struct DeviceRxToken {
    /// Bytes of the frame.
    pub frame: Vec<u8>,
}

impl DeviceRxToken {
    /// The bytes of the frame.
    pub fn frame(&self) -> (r: &[u8])
        ensures
            r@ == self.frame@,
    {
        self.frame.as_slice()
    }
}

/// Model of a device and its queues.
pub struct Nic {
    /// Guest frames that wait, oldest first.
    pub guest: Seq<Seq<u8>>,
    /// Frames for the guest that wait, oldest first.
    pub host: Seq<Seq<u8>>,
    /// Number of guest frames that may wait.
    pub guest_room: nat,
    /// Number of frames for the guest that may wait.
    pub host_room: nat,
    /// Staged guest frame.
    pub staged: Option<Seq<u8>>,
    /// Guest-outbound bytes so far.
    pub egress: u64,
    /// Some frame was emitted for the guest.
    pub emitted: bool,
    /// Guest IP MTU.
    pub mtu: usize,
    /// The runtime should shut down.
    pub shutting_down: bool,
}

/// The model of a device and its queues.
pub open spec fn nic(device: VirtioNetworkDevice, queues: NetworkFrameQueues) -> Nic {
    Nic {
        guest: queues.guest_to_host@,
        host: queues.host_to_guest@,
        guest_room: queues.guest_to_host.room(),
        host_room: queues.host_to_guest.room(),
        staged: match device.staged_guest_frame {
            Some(frame) => Some(frame@),
            None => None,
        },
        egress: queues.egress_bytes,
        emitted: device.frames_emitted,
        mtu: device.mtu,
        shutting_down: queues.shutting_down,
    }
}

impl Nic {
    /// Neither queue holds more frames than it was made for.
    pub open spec fn wf(self) -> bool {
        self.guest.len() <= self.guest_room && self.host.len() <= self.host_room
    }

    /// With the oldest guest frame staged; a frame that is staged already stays.
    pub open spec fn after_stage(self) -> Nic {
        if self.staged is None && self.guest.len() > 0 {
            Nic { guest: self.guest.drop_first(), staged: Some(self.guest[0]), ..self }
        } else {
            self
        }
    }

    /// Without a staged frame.
    pub open spec fn after_drop(self) -> Nic {
        Nic { staged: None, ..self }
    }

    /// With the staged frame handed to the stack and its bytes counted.
    pub open spec fn after_receive(self) -> Nic {
        match self.staged {
            Some(frame) => Nic {
                staged: None,
                egress: crate::network::queues::counted(self.egress, frame.len() as u64),
                ..self
            },
            None => self,
        }
    }

    /// There is room for another frame for the guest.
    pub open spec fn can_emit(self) -> bool {
        self.host.len() < self.host_room
    }

    /// With a frame for the guest enqueued, where there is room.
    pub open spec fn after_emit(self, frame: Seq<u8>) -> Nic {
        if self.can_emit() {
            Nic { host: self.host.push(frame), emitted: true, ..self }
        } else {
            self
        }
    }
}

impl VirtioNetworkDevice {
    /// Create a new device for the given MTU.
    ///
    /// `mtu` here is the guest IP MTU, not the full Ethernet frame size.
    pub fn new(mtu: usize) -> (r: Self)
        ensures
            r.mtu == mtu,
            r.staged_guest_frame is None,
            !r.frames_emitted,
    {
        VirtioNetworkDevice { mtu, staged_guest_frame: None, frames_emitted: false }
    }

    /// Stage one guest frame so the poll loop can inspect it before the stack
    /// consumes it. A frame that is staged already stays.
    pub fn stage_next_frame(&mut self, queues: &mut NetworkFrameQueues) -> (r: Option<&[u8]>)
        ensures
            nic(*final(self), *final(queues)) == nic(*old(self), *old(queues)).after_stage(),
            match r {
                Some(bytes) => nic(*final(self), *final(queues)).staged == Some(bytes@),
                None => nic(*final(self), *final(queues)).staged is None,
            },
            old(queues).wf() ==> final(queues).wf(),
    {
        if self.staged_guest_frame.is_none() {
            self.staged_guest_frame = queues.guest_to_host.pop();
        }
        match &self.staged_guest_frame {
            Some(frame) => Some(frame.as_slice()),
            None => None,
        }
    }

    /// Drop the currently staged guest frame.
    ///
    /// This is used when the poll loop decides not to pass a frame into the
    /// stack, for example when it drops unsupported UDP.
    pub fn drop_staged_frame(&mut self)
        ensures
            forall|queues: NetworkFrameQueues| #[trigger]
                nic(*final(self), queues) == nic(*old(self), queues).after_drop(),
    {
        self.staged_guest_frame = None;
    }

    /// Hands the staged frame to the stack.
    ///
    /// This is the single point where a guest-outbound frame is accepted into
    /// the stack (frames the poll loop dropped never reach here), so egress is
    /// metered here, by the full ethernet frame.
    pub fn receive(&mut self, queues: &mut NetworkFrameQueues) -> (r: Option<DeviceRxToken>)
        ensures
            nic(*final(self), *final(queues)) == nic(*old(self), *old(queues)).after_receive(),
            match r {
                Some(token) => nic(*old(self), *old(queues)).staged == Some(token.frame@),
                None => nic(*old(self), *old(queues)).staged is None,
            },
            old(queues).wf() ==> final(queues).wf(),
    {
        let frame = match self.staged_guest_frame.take() {
            Some(frame) => frame,
            None => {
                return None;
            },
        };
        queues.add_egress_bytes(frame.len() as u64);
        Some(DeviceRxToken { frame })
    }

    /// Whether the stack may emit a frame now. It may ask even when the
    /// downstream writer is behind; there must still be room in the queue.
    pub fn transmit(&self, queues: &NetworkFrameQueues) -> (r: bool)
        ensures
            r == nic(*self, *queues).can_emit(),
    {
        queues.host_to_guest.len() < queues.host_to_guest.capacity()
    }

    /// Enqueues a frame that the stack built. A frame for which there is no room
    /// is dropped. Returns whether it was enqueued.
    pub fn emit_frame(&mut self, queues: &mut NetworkFrameQueues, frame: Vec<u8>) -> (r: bool)
        ensures
            r == nic(*old(self), *old(queues)).can_emit(),
            nic(*final(self), *final(queues)) == nic(*old(self), *old(queues)).after_emit(frame@),
            old(queues).wf() ==> final(queues).wf(),
    {
        match queues.host_to_guest.push(frame) {
            Ok(_) => {
                self.frames_emitted = true;
                true
            },
            Err(_) => false,
        }
    }

    /// Largest ethernet frame. For Ethernet devices that is the IP MTU and the
    /// 14-byte Ethernet header.
    pub fn max_transmission_unit(&self) -> (r: usize)
        requires
            self.mtu + ETHERNET_HEADER_LEN <= usize::MAX,
        ensures
            r == self.mtu + 14,
    {
        self.mtu + ETHERNET_HEADER_LEN
    }
}

/// Staging again changes nothing: no frame is lost by looking twice.
pub proof fn law_staging_twice_is_staging_once(n: Nic)
    ensures
        n.after_stage().after_stage() == n.after_stage(),
{
}

/// A frame that the poll loop drops is not metered.
pub proof fn law_dropped_frame_is_not_metered(n: Nic)
    ensures
        n.after_stage().after_drop().egress == n.egress,
{
}

/// A frame that the stack receives is metered once, by its full length.
pub proof fn law_received_frame_is_metered_once(n: Nic)
    requires
        n.staged is None,
        n.guest.len() > 0,
    ensures
        n.after_stage().after_receive().egress == crate::network::queues::counted(
            n.egress,
            n.guest[0].len() as u64,
        ),
        n.after_stage().after_receive().after_receive() == n.after_stage().after_receive(),
{
}

/// Guest frames are staged in the order in which they came.
pub proof fn law_frames_are_staged_in_order(n: Nic)
    requires
        n.staged is None,
        n.guest.len() > 1,
    ensures
        n.after_stage().staged == Some(n.guest[0]),
        n.after_stage().after_receive().after_stage().staged == Some(n.guest[1]),
        n.after_stage().after_drop().after_stage().staged == Some(n.guest[1]),
{
}

/// A frame for the guest waits behind all that were emitted before, and none of
/// those is lost.
pub proof fn law_emitting_keeps_what_waits(n: Nic, frame: Seq<u8>)
    ensures
        n.host.is_prefix_of(n.after_emit(frame).host),
        n.can_emit() ==> n.after_emit(frame).host.last() == frame,
{
}

/// No step overfills a queue.
pub proof fn law_queues_never_overflow(n: Nic, frame: Seq<u8>)
    requires
        n.wf(),
    ensures
        n.after_stage().wf(),
        n.after_drop().wf(),
        n.after_receive().wf(),
        n.after_emit(frame).wf(),
{
}

impl Nic {
    /// The guest frames that were not handed over yet, in their order.
    pub open spec fn pending(self) -> Seq<Seq<u8>> {
        match self.staged {
            Some(frame) => seq![frame] + self.guest,
            None => self.guest,
        }
    }
}

/// No guest frame is lost or made up: staging leaves the frames that are to be
/// handed over as they are; receiving and dropping take the first of them, once
/// it is staged.
pub proof fn law_guest_frames_are_neither_lost_nor_made_up(n: Nic)
    ensures
        n.after_stage().pending() == n.pending(),
        n.pending().len() > 0 ==> n.after_stage().staged == Some(n.pending()[0]),
        n.pending().len() == 0 ==> n.after_stage().staged is None,
        n.staged is Some ==> n.after_receive().pending() == n.pending().drop_first()
            && n.after_drop().pending() == n.pending().drop_first(),
        n.staged is None ==> n.after_receive().pending() == n.pending()
            && n.after_drop().pending() == n.pending(),
        n.after_receive().staged is None && n.after_drop().staged is None,
{
    let after = n.after_stage();
    if n.staged is None && n.guest.len() > 0 {
        assert(seq![n.guest[0]] + n.guest.drop_first() =~= n.guest);
    }
    if let Some(frame) = n.staged {
        assert((seq![frame] + n.guest).drop_first() =~= n.guest);
    }
}

/// Each step on the guest's frames leaves the host's alone, and the other way
/// round; only receiving counts bytes, and only emitting is noted.
pub proof fn law_directions_are_independent(n: Nic, frame: Seq<u8>)
    ensures
        n.after_stage() == (Nic {
            guest: n.after_stage().guest,
            staged: n.after_stage().staged,
            ..n
        }),
        n.after_drop() == (Nic { staged: None, ..n }),
        n.after_receive() == (Nic { staged: None, egress: n.after_receive().egress, ..n }),
        n.after_emit(frame) == (Nic {
            host: n.after_emit(frame).host,
            emitted: n.after_emit(frame).emitted,
            ..n
        }),
{
}

/// Receiving counts the frame by its full length; with nothing staged it counts
/// nothing. (Counts and lengths that do not fit in 64 bits are left out.)
pub proof fn law_egress_grows_by_the_frame(n: Nic)
    requires
        n.staged matches Some(frame) ==> n.egress + frame.len() <= u64::MAX,
    ensures
        n.staged matches Some(frame) ==> n.after_receive().egress == n.egress + frame.len(),
        n.staged is None ==> n.after_receive().egress == n.egress,
{
}

/// A frame for the guest is taken exactly while fewer frames wait than fit, and
/// then it is the last; else nothing changes.
pub proof fn law_emission_needs_room(n: Nic, frame: Seq<u8>)
    ensures
        n.can_emit() <==> n.host.len() < n.host_room,
        n.host.len() < n.host_room ==> n.after_emit(frame).host == n.host.push(frame)
            && n.after_emit(frame).emitted,
        n.host.len() >= n.host_room ==> n.after_emit(frame) == n,
{
}

} // verus!
