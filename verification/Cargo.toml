[package]
name = "devendra"
version = "0.1.0"
edition = "2021"
publish = false

[dependencies]
base64 = "0.22"
ed25519-dalek = { version = "2", features = ["rand_core"] }
rand = "0.8"
uuid7 = { version = "1", features = ["serde"] }
serde = { version = "1", features = ["derive"] }
toml = "0.8"
clap = { version = "4", features = ["derive", "env"] }
tracing = "0.1"
tracing-subscriber = { version = "0.3", features = ["env-filter"] }
tokio = { version = "1", features = ["full"] }
axum = "0.7"
reqwest = { version = "0.12", default-features = false, features = ["json"] }
sqlx = { version = "0.8", default-features = false, features = ["sqlite", "runtime-tokio"] }
git2 = { version = "0.19", default-features = false }
hostname = "0.4"
libc = "0.2"
