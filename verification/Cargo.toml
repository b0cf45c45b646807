[package]
name = "omnia"
version = "0.1.0"
edition = "2021"
publish = false

[dependencies]
anyhow = "=1.0.104"
cap-fs-ext = "=4.0.3"
cap-std = "=4.0.3"
clap = { version = "=4.6.7", features = ["derive"] }
clap_complete = "=4.6.11"
futures = "=0.3.34"
proc-macro2 = "=1.0.107"
quote = "=1.0.47"
schemars = "=1.2.3"
sea-query = "=1.0.2"
serde = { version = "=1.0.229", features = ["derive"] }
serde_json = "=1.0.154"
syn = { version = "=2.0.119", features = ["full", "extra-traits"] }
thiserror = "=2.0.21"
tokio = { version = "=1.54.1", features = ["rt", "rt-multi-thread", "macros", "io-util", "io-std", "sync", "time"] }
tracing = "=0.1.44"
wasm-tokio = "=0.8.2"
wasmtime = { version = "=46.0.3", default-features = false, features = ["anyhow", "async", "component-model", "component-model-async", "cranelift", "runtime", "std"] }
wasmtime-wasi = { version = "=46.0.3", features = ["p3"] }
