[package]
name = "experiment_driver"
version = "0.1.0"
edition = "2021"
publish = false

[dependencies]
clap = "4"
spurs = "*"
chrono = "*"

[dev-dependencies]
serde_json = "1"
