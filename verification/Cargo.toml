[package]
name = "fitm"
version = "0.1.0"
edition = "2021"
publish = false

[dependencies]
json = "*"
libc = "*"
fs_extra = "*"
serde = { version = "*", features = ["derive"] }
serde_json = "*"
chrono = "*"
termion = "*"
