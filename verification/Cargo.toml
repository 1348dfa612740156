[package]
name = "song_catalog"
version = "0.1.0"
edition = "2021"
publish = false

[dependencies]
csv = "1"
diesel = { version = "1.4", features = ["sqlite"] }
diesel_migrations = "1.4"
dotenv = "0.15"
serde = { version = "1", features = ["derive"] }
serenity = "0.8"
