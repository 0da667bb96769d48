[package]
name = "kiri"
version = "0.1.0"
edition = "2021"
publish = false

[dependencies]
rustc-hash = "1.1"
regex = "1"
toml = "0.5"
evdev = "0.12"
evdev-keys = "*"
evdev-rs = "0.6"
log = "0.4"
env_logger = "0.10"
once_cell = "1"
