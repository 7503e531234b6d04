[package]
name = "serial_flasher"
version = "0.1.0"
edition = "2021"
publish = false

[dependencies]
crc = "3"
hex = "0.4"
memmem = "0.1"
serialport = { version = "4", default-features = false }
clap = { version = "4", features = ["cargo"] }
