//! Lease-aware admission for CUDA fork pools.
//!
//! The controller deliberately limits durable lease claims, not CUDA daemon
//! connections. A claimed worker must always be allowed to finish activation;
//! a limit below that boundary can deadlock the daemon accept loop and leaves
//! the lease state ambiguous after a restart.
//!
//! Percentages are measured and averaged by the caller. The controller carries
//! them as values of a type `U` that it stores and hands on but never computes
//! with; instants are nanoseconds of one monotonic clock.
pub mod calibration;
pub mod gpu;
pub mod fair_share;
pub mod registry;
pub mod host_cpu;
pub mod nvml;
