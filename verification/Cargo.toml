[package]
name = "bbt"
version = "0.2.0"
edition = "2021"
publish = false

[dependencies]
serde = { version = "1", features = ["derive"] }
serde_json = "1"
serde_norway = "*"
time = { version = "0.3", features = ["formatting"] }
libc = "0.2"
anyhow = "1"
