[package]
name = "cfn_guard"
version = "0.1.0"
edition = "2021"
publish = false

[dependencies]
urlencoding = "=2.1.3"
serde = { version = "=1.0.229", features = ["derive"] }
serde_json = { version = "=1.0.154", features = ["preserve_order"] }
serde_yaml = "=0.9.34+deprecated"
clap = { version = "=4.6.7", features = ["derive"] }
clap_complete = "4"
