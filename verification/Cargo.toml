[package]
name = "ipc_agent"
version = "0.1.0"
edition = "2021"
publish = false

[dependencies]
anyhow = "*"
async-trait = "*"
cid = "*"
fvm_shared = "*"
serde = { version = "*", features = ["derive"] }
tokio = { version = "*", features = ["fs"] }
toml = "*"
