[package]
name = "squelch"
version = "0.1.0"
edition = "2021"
publish = false

[dependencies]
biquad = "*"
noise = "*"
hound = "*"
minimp3 = "*"
ctrlc = "*"
clap = { version = "4", features = ["derive"] }

[dev-dependencies]
bincode = "2"
