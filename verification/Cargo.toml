[package]
name = "enact_core"
version = "0.1.0"
edition = "2021"
publish = false

[dependencies]
sha2 = "=0.11.1"
serde = { version = "=1.0.229", features = ["derive"] }
serde_json = "=1.0.154"
yaml_serde = "=0.10.7"
glob = "=0.3.4"
log = "=0.4.35"
thiserror = "=2.0.21"
clap = { version = "=4.6.7", features = ["derive"] }
flexi_logger = "=0.31.10"

[dev-dependencies]
tempfile = "*"
