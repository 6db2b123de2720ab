[package]
name = "input_focus"
version = "0.1.0"
edition = "2021"
publish = false

[dependencies]
async-channel = "1"
futures = "0.3"
futures-util = "0.3"
libc = "0.2"
tokio = { version = "1", features = ["rt", "macros"] }
tokio-udev = "*"
udev = "*"
zbus = "1"
zvariant = "2"
