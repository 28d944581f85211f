[package]
name = "tangl"
version = "0.1.0"
edition = "2021"
publish = false

[dependencies]
clap = "4"
colored = "2"
globset = "0.4"
itertools = "0.13"
log = "0.4"
serde = { version = "1", features = ["derive"] }
serde_json = "1"
termtree = "0.5"
thiserror = "1"
uuid = { version = "1", features = ["v4"] }
