[package]
name = "reproducible"
version = "0.4.0"
edition = "2021"
publish = false

[dependencies]
csv = "1"
tabled = "*"
serde = { version = "1", features = ["derive"] }
serde_json = "1"
sysinfo = "*"
num-traits = "0.2"
