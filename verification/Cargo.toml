[package]
name = "bork"
version = "0.2.0"
edition = "2021"
publish = false

[dependencies]
uuid = { version = "1", features = ["v4"] }
rand = "0.9"
log = "0.4"
simple-logging = "2"
socket2 = "0.5"
ratatui = "0.29"
crossterm = "0.28"
