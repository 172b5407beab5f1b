[package]
name = "gmon"
version = "0.1.0"
edition = "2021"
publish = false

[dependencies]
chrono = "*"
clap = { version = "*", features = ["derive"] }
nvml-wrapper = "*"
owo-colors = "*"
quick-xml = { version = "*", features = ["serialize"] }
serde = { version = "*", features = ["derive"] }
sysinfo = "*"
terminal_size = "*"
thiserror = "*"
