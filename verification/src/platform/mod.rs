//! Platform abstraction for smolvm: type-safe platform identification and the
//! choices that depend on it.
//!
//! Guests always run Linux, on the CPU architecture of the host. The names of
//! the host's operating system and architecture are those that Rust gives its
//! targets.
pub mod host;
pub mod windows;
pub use crate::platform::host::{
    ensure_artifact_arch_matches_host,
    native_platform,
    rosetta,
    vm_executor,
    Arch,
    Os,
    Platform,
};
