[package]
name = "server_runner"
version = "0.1.0"
edition = "2021"
publish = false

[dependencies]
anyhow = "*"
clap = { version = "*", features = ["derive"] }
config = { version = "*", default-features = false, features = ["yaml"] }
crossterm = "*"
ctrlc = "*"
log = "*"
ratatui = "*"
reqwest = { version = "*", default-features = false, features = ["blocking"] }
serde = { version = "*", features = ["derive"] }
shlex = "*"
simplelog = "*"
