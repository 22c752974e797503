[package]
name = "agenterm"
version = "0.1.0"
edition = "2021"
publish = false

[dependencies]
directories = "*"
flate2 = "1"
hex = "0.4"
instant = "0.1"
libc = "0.2"
log = "0.4"
mio = { version = "1", features = ["os-poll", "os-ext"] }
parking_lot = "0.12"
regex = "1"
serde = { version = "1", features = ["derive"] }
serde_json = "1"
tempfile = "3"
zmodem2 = "*"

[dev-dependencies]
rand = "0.8"
