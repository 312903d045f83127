[package]
name = "serial_link"
version = "0.1.0"
edition = "2021"
publish = false

[dependencies]
heapless = "0.8"
serialport = { version = "4", default-features = false }
crossterm = "*"
ctrlc = "*"
termios = "0.3"
anyhow = "*"
