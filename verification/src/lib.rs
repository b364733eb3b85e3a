//! Verified core of smolvm.
pub mod admission;
pub mod api;
pub mod digits;
pub mod error;
pub mod forkpoint;
pub mod json;
pub mod network;
pub mod pack_ref;
pub mod platform;
pub mod pool;
pub mod proto_hash;
pub mod proxy_opts;
pub mod remote_volume;
pub mod terminal;
pub mod text;
pub mod vulkan;
pub mod workload;
