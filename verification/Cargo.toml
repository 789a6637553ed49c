[package]
name = "screenmatch"
version = "0.1.0"
edition = "2021"
publish = false

[dependencies]
image = "*"
libc = "*"
winapi = { version = "0.3", features = ["winuser", "wingdi", "windef"] }
