[package]
name = "crabsweeper"
version = "0.1.0"
edition = "2021"
publish = false

[dependencies]
minesweeprs = "=0.2.0"
rand = "=0.10.3"
rand_pcg = "=0.10.2"
unicode-width = "=0.2.3"
deterministic-hash = "=1.0.2"
macroquad = "=0.4.16"
image = { version = "=0.25.10", default-features = false, features = ["png"] }
csv = "=1.4.0"
uuid = { version = "=1.29.0", features = ["v4"] }
