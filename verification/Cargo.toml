[package]
name = "wasmtime-mysql"
version = "0.1.0"
edition = "2021"
publish = false

[dependencies]
libc = "=0.2.191"
windows-sys = { version = "=0.61.2", features = ["Win32_Foundation", "Win32_Networking_WinSock"] }
wasmtime = "=47.0.4"
wasmtime-wasi = "=47.0.4"
clap = { version = "=4.6.7", features = ["derive"] }
signal-hook = "=0.4.6"
