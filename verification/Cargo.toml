[package]
name = "dprint-plugin-svgo"
version = "0.1.0"
edition = "2021"
publish = false

[dependencies]
dprint-core = { version = "=0.75.0", features = ["process", "async_runtime"] }
serde = { version = "=1.0.229", features = ["derive"] }
serde_json = "=1.0.154"
flate2 = "=1.1.10"
zstd = "=0.14.3"
tokio = { version = "=1.54.1", features = ["rt", "rt-multi-thread", "sync", "time", "macros"] }
tokio-util = "=0.7.20"
async-channel = "=2.5.0"
sysinfo = "=0.40.1"
thiserror = "=2.0.21"
schemars = "=1.2.3"
temporal_rs = { version = "=0.2.6", features = ["compiled_data"] }
deno_core = "*"
