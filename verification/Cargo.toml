[package]
name = "yaml_recfmt"
version = "0.1.0"
edition = "2021"
publish = false

[dependencies]
regex = "1"
serde_yaml = "0.9"
clap = { version = "4", features = ["derive"] }
color-eyre = "0.6"
ignore = "0.4"
tracing = "0.1"
tracing-subscriber = { version = "0.3", features = ["env-filter"] }
