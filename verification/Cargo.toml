[package]
name = "opentag"
version = "0.1.0"
edition = "2021"
publish = false

[dependencies]
arboard = "=3.6.1"
clap = { version = "=4.6.7", features = ["string"] }
color-print = "=0.3.7"
dialoguer = { version = "=0.12.0", features = ["fuzzy-select"] }
dirs-next = "=2.0.0"
open = "=5.4.4"
serde = { version = "=1.0.229", features = ["derive"] }
serde_json = "=1.0.151"
shellexpand = "=3.1.2"
termcolor = "=1.4.1"
toml = "=1.1.6"
