[package]
name = "adbmdns"
version = "0.1.0"
edition = "2021"
publish = false

[dependencies]
simple-dns = "*"
anyhow = "*"
log = "*"
mio = { version = "*", features = ["net", "os-poll"] }
socket2 = { version = "*", features = ["all"] }
if-addrs = "*"
libc = "*"
nix = { version = "*", features = ["net", "socket"] }
zerocopy = { version = "*", features = ["derive"] }
windows-sys = { version = "*", features = ["Win32_Foundation", "Win32_NetworkManagement_WiFi"] }
