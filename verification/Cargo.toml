[package]
name = "privacy_indicator"
version = "0.1.0"
edition = "2021"
publish = false

[dependencies]
bimap = "*"
inotify = "*"
glob = "*"
pipewire = "*"
