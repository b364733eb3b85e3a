//! Frame transport of the virtio-net backend.
//!
//! ```text
//! guest_to_host queue : reader thread   -> smoltcp poll loop
//! host_to_guest queue : smoltcp runtime -> writer thread
//! ```
//!
//! One queue set is shared by all helper threads of a guest NIC; whoever uses it
//! has it exclusively for the time of the call.
pub mod device;
pub mod frame_queue;
pub mod queues;
