[package]
name = "usb_probe"
version = "0.1.0"
edition = "2021"
publish = false

[dependencies]
relm4 = { version = "*", features = ["libadwaita"] }
serde = { version = "1", features = ["derive"] }
serde_json = "1"
