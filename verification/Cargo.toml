[package]
name = "miden-project-assembly"
version = "0.1.0"
edition = "2021"
publish = false

[dependencies]
clap = { version = "=4.6.7", features = ["derive"] }
miden-assembly-syntax = "=0.22.4"
miden-core = "=0.22.4"
miden-mast-package = "=0.22.4"
miden-package-registry = { version = "=0.22.4", features = ["resolver", "serde"] }
miden-project = "=0.22.4"
serde = "=1.0.229"
thiserror = "=2.0.21"
toml = "=1.1.8"

[dev-dependencies]
miden-mast-package = { version = "=0.22.4", features = ["arbitrary"] }
