[package]
name = "orgwiki"
version = "0.1.0"
edition = "2021"
publish = false

[dependencies]
chrono = "0.4"
fs_extra = "1"
imagesize = "*"
notify = "*"
orgize = "0.9"
rusqlite = { version = "0.24", features = ["bundled"] }
serde = { version = "1", features = ["derive"] }
tera = { version = "1", default-features = false }
