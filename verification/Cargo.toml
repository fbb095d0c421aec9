[package]
name = "pyrwa"
version = "0.1.0"
edition = "2021"
publish = false

[dependencies]
num-bigint = "=0.3.3"
pyo3 = { version = "=0.13.2", features = ["num-bigint"] }
pyo3-asyncio = { version = "=0.13.5", features = ["tokio-runtime"] }
pyo3-log = "=0.3.1"
tokio = { version = "=1.54.1", features = ["full"] }
tokio-postgres = { version = "=0.7.18", features = ["with-chrono-0_4", "with-serde_json-1"] }
postgres-types = "=0.2.14"
bb8 = "=0.7.1"
bb8-postgres = "=0.7.0"
chrono = "=0.4.45"
once_cell = "=1.21.4"
serde_json = "=1.0.154"
log = "=0.4.35"
syn = { version = "=1.0.109", features = ["full"] }
quote = "=1.0.47"
proc-macro2 = "=1.0.107"
libc = "=0.2.191"
