[package]
name = "markdown_memo"
version = "0.1.0"
edition = "2021"
publish = false

[dependencies]
dirs = "*"
regex = "1"
rusqlite = { version = "*", features = ["bundled"] }
serde = { version = "1", features = ["derive"] }
uuid = { version = "1", features = ["v4"] }
