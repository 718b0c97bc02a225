[package]
name = "fix-engine"
version = "0.1.0"
edition = "2021"
publish = false

[dependencies]
anyhow = "1"
clap = { version = "4", features = ["derive"] }
clap_complete = "4"
indicatif = "0.17"
konveyor-core = "=0.0.4"
owo-colors = { version = "4", features = ["supports-colors"] }
oxc_allocator = "=0.143.0"
oxc_parser = "=0.143.0"
oxc_span = "=0.143.0"
regex = "=1.13.1"
serde = { version = "1", features = ["derive"] }
serde_json = "=1.0.154"
serde_yaml = "=0.9.34"
tokio = { version = "1", features = ["rt-multi-thread", "macros"] }
tracing = "0.1"
tracing-subscriber = { version = "0.3", features = ["env-filter"] }
ureq = { version = "3", features = ["json"] }
yaml_serde = "=0.10.7"
