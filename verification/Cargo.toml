[package]
name = "terminal_interop"
version = "0.1.0"
edition = "2021"
publish = false

[dependencies]
base64 = "0.22"
getrandom = "0.3"
sha2 = "0.10"
icy_sixel = "*"
serde = { version = "1", features = ["derive"] }
serde_json = "1"
schemars = "*"
clap = { version = "4", features = ["derive"] }
nix = { version = "*", features = ["term", "poll"] }
tempfile = "3"
thiserror = "2"
