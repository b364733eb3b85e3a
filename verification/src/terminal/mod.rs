//! Terminal handling for interactive sessions: the choices behind raw mode and
//! I/O multiplexing between the local terminal and a remote VM.
//!
//! The system calls are the caller's. Here is what is asked of the terminal and
//! what its answers mean, on POSIX systems and on the Windows console.
pub mod console;
pub mod posix;
