[package]
name = "paneview"
version = "0.1.0"
edition = "2021"
publish = false

[dependencies]
anyhow = "=1.0.104"
crossbeam-channel = "=0.5.17"
crossterm = "=0.28.1"
if-addrs = "0.14"
portable-pty = "=0.8.1"
ratatui = "=0.29.0"
sysinfo = "=0.33.1"
vt100 = "=0.15.2"
