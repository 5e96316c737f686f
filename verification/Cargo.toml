[package]
name = "zilch"
version = "0.1.0"
edition = "2021"
publish = false

[dependencies]
adb_client = { version = "=3.2.3", features = ["usb"] }
rusb = "=0.9.4"
zip = "=8.6.0"
