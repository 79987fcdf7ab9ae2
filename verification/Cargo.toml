[package]
name = "chip8"
version = "0.1.0"
edition = "2021"
publish = false

[dependencies]
rand = "=0.8.8"
ndarray = "=0.16.1"
bitvec = "=1.1.1"
clap = { version = "=4.6.7", features = ["derive"] }
clio = { version = "=0.3.5", features = ["clap-parse"] }
miniquad = "=0.4.11"
egui-miniquad = "=0.16.0"
egui = "=0.31.1"
