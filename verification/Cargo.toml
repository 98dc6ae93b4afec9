[package]
name = "privacy_indicator"
version = "0.1.0"
edition = "2021"
publish = false

[dependencies]
bimap = "0.6"
inotify = "0.11"
nix = { version = "0.30", features = ["signal"] }
pipewire = "0.9"
