[package]
name = "browsing_linkage"
version = "0.1.0"
edition = "2021"
publish = false

[dependencies]
chrono = "0.4"
clap = "3"
csv = "1"
indexmap = "2"
log = "0.4"
nalgebra = "0.32"
num-traits = "0.2"
ordered-float = "3"
rand = "0.8"
rayon = "1"
seal = "0.1"
serde = { version = "1", features = ["derive"] }
simple_logger = "1"
