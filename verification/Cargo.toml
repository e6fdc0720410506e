[package]
name = "checkgit"
version = "0.1.0"
edition = "2021"
publish = false

[dependencies]
image = "0.25"
reqwest = { version = "0.12", features = ["json"] }
tokio = { version = "1", features = ["macros", "rt-multi-thread"] }
serde = { version = "1", features = ["derive"] }
serde_json = "1"
clap = { version = "4", features = ["derive"] }
chrono = "0.4"
colored = "2"
viuer = "0.9"
