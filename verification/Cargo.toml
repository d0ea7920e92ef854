[package]
name = "sddm_daemon"
version = "0.1.0"
edition = "2021"
publish = false

[dependencies]
anyhow = "1"
async-signal = "*"
evdev = "*"
gethostname = "*"
inotify = "*"
linux-keyutils = "*"
nix = { version = "*", features = ["ioctl", "term", "fs"] }
nonstick = "*"
rust-ini = "*"
sd-notify = "*"
serde = "1"
smol = "2"
zbus = "5"
zeroize = "1"
