[package]
name = "eval_rust"
version = "0.1.0"
edition = "2021"
publish = false

[dependencies]
actix-rt = "2"
actix-web = { version = "4", default-features = false, features = ["macros"] }
rustbreak = { version = "2", features = ["ron_enc"] }
serde = { version = "1", features = ["derive"] }
serde_json = "1"
