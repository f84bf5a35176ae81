[package]
name = "openwave"
version = "0.1.0"
edition = "2021"
publish = false

[dependencies]
gtk4 = { version = "*", features = ["v4_18"] }
libadwaita = { version = "*", features = ["v1_8"] }
libc = "0.2"
libloading = "*"
serde = { version = "1", features = ["derive"] }
serde_json = "1"
