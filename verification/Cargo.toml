[package]
name = "krypta"
version = "0.1.0"
edition = "2021"
publish = false

[dependencies]
itertools = "0.10"
indexmap = "1.9"
byteorder = "1"
convert_case = "0.5"
rand = { version = "0.8", features = ["small_rng"] }
rand_chacha = "0.3"
chrono = "0.4"
uuid = { version = "1", features = ["v5"] }
byte-unit = "4"
walkdir = "2"
toml = "0.5"
serde = { version = "1", features = ["derive"] }
serde_json = "1"
anyhow = "1"
thiserror = "1"
log = "0.4"
pretty_env_logger = "0.4"
dotenv = "0.15"
once_cell = "1"
tokio = { version = "1", features = ["rt-multi-thread", "macros", "sync", "fs"] }
rayon = "1"
async-trait = "0.1"
rusqlite = "0.27"
sqlx = { version = "0.6", default-features = false, features = ["sqlite", "runtime-tokio-rustls", "chrono", "macros"] }
egui = "0.17"
rust-s3 = { version = "0.31", default-features = false, features = ["tokio-rustls-tls"] }
