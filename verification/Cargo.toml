[package]
name = "converter"
version = "0.1.0"
edition = "2021"
publish = false

[dependencies]
which = "*"
shlex = "*"
clap = { version = "*", features = ["derive"] }
dialoguer = { version = "*", features = ["fuzzy-select"] }
console = "*"
ansi-escapes = "*"
dirs = "*"
env_logger = "*"
log = "*"
glob = "*"
serde = { version = "*", features = ["derive"] }
serde_json = "*"
thiserror = "*"
