[package]
name = "smolvm"
version = "0.1.0"
edition = "2021"
publish = false

[dependencies]
axum = "=0.7.9"
clap = { version = "=4.6.7", features = ["derive"] }
crossbeam-queue = "=0.3.14"
futures-util = "=0.3.34"
libc = "=0.2.191"
libloading = "=0.8.9"
metrics = "=0.24.6"
parking_lot = "=0.12.5"
polling = "=3.11.0"
serde = { version = "=1.0.229", features = ["derive"] }
serde_json = "=1.0.154"
smoltcp = "=0.12.0"
tokio = { version = "=1.54.1", features = ["macros", "rt-multi-thread", "sync", "time"] }
tracing = "=0.1.44"
utoipa = "=5.5.0"
windows-sys = { version = "=0.61.2", features = ["Win32_Foundation", "Win32_Networking_WinSock", "Win32_System_Console", "Win32_System_Threading"] }
