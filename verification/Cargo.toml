[package]
name = "luminet_blackhole_lib"
version = "0.1.0"
edition = "2021"
publish = false

[dependencies]
cgmath = "=0.18.0"
clap = { version = "=4.6.7", features = ["derive"] }
image = { version = "=0.24.9", features = ["rayon"] }
indicatif = { version = "=0.17.11", features = ["rayon"] }
plotters = { version = "=0.3.7", default-features = false, features = ["bitmap_backend", "bitmap_encoder", "line_series"] }
rand = "=0.8.8"
rayon = "=1.12.0"
spade = "=2.15.1"
spec_math = "=0.1.6"
