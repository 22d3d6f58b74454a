[package]
name = "power-plant"
version = "0.1.0"
edition = "2021"
publish = false

[dependencies]
frame-support = { version = "=38.2.0", default-features = false, features = ["std"] }
frame-system = { version = "=38.0.0", default-features = false, features = ["std"] }
log = { version = "0.4", default-features = false }
parity-scale-codec = { version = "=3.7.5", default-features = false, features = ["derive", "std"] }
scale-info = { version = "=2.11.6", default-features = false, features = ["derive", "std"] }
sp-core = { version = "=34.0.0", default-features = false, features = ["std"] }
sp-io = { version = "=38.0.2", default-features = false, features = ["std"] }
sp-runtime = { version = "=39.0.5", default-features = false, features = ["std"] }
