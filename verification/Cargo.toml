[package]
name = "eruption"
version = "0.1.0"
edition = "2021"
publish = false

[dependencies]
coz = "=0.1.3"
eframe = { version = "=0.19.0", default-features = false, features = ["glow"] }
egui = "=0.19.0"
evdev-rs = "=0.6.3"
eyre = "=0.6.14"
flume = "=0.10.14"
libc = "=0.2.191"
log = "=0.4.35"
thiserror = "=1.0.69"
