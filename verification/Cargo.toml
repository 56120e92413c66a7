[package]
name = "clip_frag"
version = "0.1.0"
edition = "2021"
publish = false

[dependencies]
anyhow = "1"
clap = { version = "4", features = ["derive"] }
clipboard-win = "5.4"
encoding_rs = "0.8"
