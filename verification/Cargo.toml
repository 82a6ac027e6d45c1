[package]
name = "wolf_project_210"
version = "0.1.0"
edition = "2021"
publish = false

[dependencies]
chrono = "0.4"
csv = "1"
petgraph = "0.6"
plotters = "0.3"
serde = { version = "1", features = ["derive"] }
