[package]
name = "lexml"
version = "0.1.0"
edition = "2021"
publish = false

[dependencies]
quick-xml = "0.37"
rusqlite = { version = "*", features = ["bundled"] }
anyhow = "1"
gtk4 = { version = "*", features = ["v4_12"] }
libadwaita = "*"
