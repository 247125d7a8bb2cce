[package]
name = "obd"
version = "0.1.2"
edition = "2021"
publish = false

[dependencies]
cap-std = "3"
clap = { version = "4", features = ["derive"] }
color-eyre = "0.6"
rustix = { version = "1", features = ["fs", "mount", "process"] }
serde = { version = "1", features = ["derive"] }
serde_json = { version = "1", features = ["preserve_order"] }
signal-hook = "0.3"
thiserror = "2"
tracing = "0.1"
tracing-error = "0.2"
tracing-subscriber = { version = "0.3", features = ["env-filter"] }

[dev-dependencies]
tempfile = "3"
