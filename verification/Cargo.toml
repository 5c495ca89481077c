[package]
name = "fff"
version = "0.1.0"
edition = "2021"
publish = false

[dependencies]
anyhow = "=1.0.104"
arrow-schema = "=53.4.1"
base64 = "=0.22.1"
bytemuck = "=1.25.2"
byteorder = "=1.5.0"
bytes = "=1.12.1"
clap = { version = "=4.6.7", features = ["derive"] }
half = "=2.7.1"
ordered-float = "=4.6.0"
rand = "=0.8.8"
rand_distr = "=0.4.3"
semver = "=1.0.28"
serde = { version = "=1.0.229", features = ["derive"] }
serde_json = "=1.0.154"
wasi-common = { version = "=24.0.13", features = ["sync"] }
wasmtime = { version = "=24.0.13", default-features = false, features = ["runtime", "cranelift"] }
wat = "=1.263.0"
wide = "=0.7.33"
xxhash-rust = { version = "0.8", features = ["xxh64"] }
