[package]
name = "indexa"
version = "0.1.0"
edition = "2021"
publish = false

[dependencies]
regex = "1"
regex-syntax = "0.6"
fxhash = "0.2"
hashbrown = "0.11"
unicode-segmentation = "1"
unicode-width = "0.1"
size = "0.1"
num_cpus = "1"
rayon = "1"
camino = "1"
dunce = "1"
dirs = "3"
serde = { version = "1", features = ["derive"] }
bincode = "1"
toml = "0.5"
anyhow = "1"
thiserror = "1"
structopt = "0.3"
crossterm = "0.19"
tui = { version = "0.15", default-features = false, features = ["crossterm"] }
chrono = "0.4"
dialoguer = "0.8"
crossbeam-channel = "0.5"
cassowary = "0.3"
itertools = "0.10"
strum = { version = "0.21", features = ["derive"] }
parking_lot = "0.11"

[dev-dependencies]
tempfile = "3"
