[package]
name = "vodka"
version = "0.1.0"
edition = "2021"
publish = false

[dependencies]
aes = "0.8"
arboard = { version = "3", default-features = false }
argon2 = "0.5"
clap = "4"
cli-table = "0.4"
csv = "1"
dirs = "5"
rand = "0.8"
rand_core = { version = "0.6", features = ["getrandom"] }
rpassword = "7"
rusqlite = { version = "0.31", features = ["bundled"] }
serde = { version = "1", features = ["derive"] }
sha2 = "0.10"
toml = "0.8"
