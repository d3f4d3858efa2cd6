[package]
name = "entroptui"
version = "0.1.0"
edition = "2021"
publish = false

[dependencies]
ahash = "0.8"
anyhow = "1"
clap = { version = "4", features = ["derive"] }
crossterm = "0.28"
ratatui = "0.29"
rayon = "1"
rustfft = "6"

[dev-dependencies]
rand = "0.8"
tempfile = "3"
