[package]
name = "agent-box-common"
version = "0.1.0"
edition = "2021"
publish = false

[dependencies]
shell-words = "=1.1.1"
nix = { version = "=0.31.3", features = ["user", "socket"] }
eyre = "=0.6.14"
serde = { version = "=1.0.229", features = ["derive"] }
serde_json = "=1.0.154"
rmp-serde = "=1.3.1"
figment = { version = "=0.10.19", features = ["toml"] }
glob = "=0.3.4"
walkdir = "=2.5.0"
clap = { version = "=4.6.7", features = ["derive"] }
inquire = "=0.9.4"
tracing = "=0.1.44"
tracing-subscriber = { version = "=0.3.23", features = ["env-filter"] }
schemars = "=1.2.3"
gix = "=0.88.0"
jj-lib = "=0.40.0"
kstring = "=2.0.2"
pollster = "=0.4.0"
