[package]
name = "fastfiles"
version = "0.1.0"
edition = "2021"
publish = false

[dependencies]
rand = "=0.8.8"
uuid = { version = "=1.29.0", features = ["v4"] }
serde = { version = "=1.0.229", features = ["derive"] }
actix-web = { version = "=4.18.1", default-features = false }
tokio = { version = "=1.54.1", features = ["rt-multi-thread", "sync", "macros"] }
tokio-stream = "=0.1.19"
futures-util = "=0.3.34"
memmap2 = "=0.9.12"
socket2 = { version = "=0.5.10", features = ["all"] }
if-addrs = "=0.15.0"
libc = "=0.2.191"
windows-sys = { version = "=0.52.0", features = ["Win32_Networking_WinSock", "Win32_Foundation", "Win32_System_IO"] }
