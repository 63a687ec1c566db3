[package]
name = "fish_net_radio"
version = "0.1.0"
edition = "2021"
publish = false

[dependencies]
crc = "3"
ctrlc = "3"
libc = "0.2"
num-complex = "0.4"
rustfft = "6"
serde = { version = "1", features = ["derive"] }
serde_yaml = "0.9"
zmq = "0.10"
