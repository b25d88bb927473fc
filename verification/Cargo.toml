[package]
name = "hid_events"
version = "0.1.0"
edition = "2021"
publish = false

[dependencies]
hidapi = "*"
log = "*"
stoppable_thread = "*"
