# smolvm

Host-side logic of a micro-VM manager, verified with Verus.

`src/` is the library. Its functions carry contracts that Verus proves, but for
the contracts of the few wrappers around outside crates (below), which are
believed. The properties that relate several functions stand beside them as
public proof functions named `law_..`.

| Module | Content |
|---|---|
| `admission` | how many pool workers may run at once: calibration per device, reserves, fair shares between pools, host CPU and NVML readings |
| `pool` | records of held-fork pools, slots and leases |
| `api` | decisions of the HTTP handlers and of the pool controller |
| `pack_ref`, `json` | which registry references name a packed machine |
| `remote_volume` | volumes that live in a remote store |
| `network` | frame queues and the virtio-net device between guest and host |
| `terminal` | raw mode, polling and retries of interactive sessions |
| `vulkan` | the Vulkan driver that a container is given |
| `workload`, `forkpoint`, `proxy_opts`, `platform`, `proto_hash` | workload launches, fork markers, proxy flags, platforms, the fingerprint of the wire protocol |
| `text`, `digits`, `error` | strings, numerals, errors |

Two outside crates are called from the library, each behind a small trusted
wrapper whose doc comment says what is claimed of it: `serde_json` in `json.rs`
and `crossbeam-queue` in `network/frame_queue.rs`.

`app/` is the ordinary Rust around the library: HTTP handlers, the controller's
loop, threads and locks, system calls, floating-point means, and the types that
carry `serde`, `clap` and `utoipa` derives.

`tests/` runs the library.
