[package]
name = "run_stars"
version = "0.1.0"
edition = "2021"
publish = false

[dependencies]
argh = "*"
async-channel = "*"
async-process = "*"
crossterm = "*"
fs4 = "*"
futures-concurrency = "*"
futures-lite = "*"
futures-time = "*"
inotify = "*"
jiff = "*"
libc = "*"
memchr = "*"
ratatui = "*"
rustix = { version = "*", features = ["process"] }
