[package]
name = "probe_rs"
version = "0.1.0"
edition = "2021"
publish = false

[dependencies]
gimli = "*"
jep106 = "*"
typed-path = "*"
serde = { version = "*", features = ["derive"] }
thiserror = "*"
anyhow = "*"
async-trait = "*"
tracing = "*"
