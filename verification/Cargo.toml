[package]
name = "musso"
version = "0.1.0"
edition = "2021"
publish = false

[dependencies]
clap = { version = "4", features = ["derive"] }
dirs = "5"
log = "0.4"
notify = "6"
notify-debouncer-full = "0.3"
thiserror = "1"
