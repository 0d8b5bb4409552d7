[package]
name = "nix_varlink_client"
version = "0.1.0"
edition = "2021"
publish = false

[dependencies]
anyhow = "1"
clap = { version = "4", features = ["derive", "env"] }
harmonia-store-core = "=0.0.0-alpha.0"
nix = { version = "0.30", features = ["socket", "uio"] }
nix-nar = "*"
serde_json = "1"
thiserror = "2"
