[package]
name = "emoji_interpreter"
version = "0.1.0"
edition = "2021"
publish = false

[dependencies]
actix-files = "0.6"
actix-web = { version = "4", default-features = false, features = ["macros"] }
dotenv = "0.15"
rustc_apfloat = "0.2"
serde = { version = "1", features = ["derive"] }
