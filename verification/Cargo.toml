[package]
name = "forkman"
version = "0.1.0"
edition = "2021"
publish = false

[dependencies]
minijinja = { version = "=2.24.0", features = ["custom_syntax"] }
octocrab = "=0.44.1"
serde = { version = "=1.0.229", features = ["derive"] }
serde_yml = "=0.0.13"
