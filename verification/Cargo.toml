[package]
name = "section_core"
version = "0.1.0"
edition = "2021"
publish = false

[dependencies]
blsttc = "=3.4.0"
secured_linked_list = "=0.5.0"
sn_membership = "=1.15.0"
xor_name = "=5.0.0"
resource_proof = "=1.0.39"
backoff = "=0.4.0"
bincode = "=1.3.3"
ed25519-dalek = "=1.0.1"
serde = { version = "=1.0.229", features = ["derive"] }
serde_json = "=1.0.154"
tokio = { version = "=1.54.1", features = ["sync", "time", "rt", "fs"] }
futures = "=0.3.34"
tracing = "=0.1.44"
hex = "=0.4.3"
rand = "=0.7.3"
