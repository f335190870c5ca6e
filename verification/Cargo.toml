[package]
name = "messaging_core"
version = "0.1.0"
edition = "2021"
publish = false

[dependencies]
argon2rs = "*"
colored = "*"
mio = { version = "*", features = ["os-poll", "net"] }
slug = "*"
