[package]
name = "ivlan"
version = "0.1.0"
edition = "2021"
publish = false

[dependencies]
anyhow = "1"
base64 = "0.22"
bytes = "1"
clap = { version = "4", default-features = false, features = ["std", "help", "usage", "error-context", "derive", "env"] }
ctrlc = "3"
dashmap = "6"
dotenv = "0.15"
env_logger = { version = "0.11", default-features = false }
etherparse = "*"
futures = "0.3"
fxhash = "0.2"
iroh = { version = "1", default-features = false, features = ["tls-ring"] }
iroh-base = "1"
log = "0.4"
serde = { version = "1", features = ["derive"] }
tarpc = { version = "*", features = ["serde-transport", "serde-transport-json", "tcp", "tokio1"] }
tokio = { version = "1", features = ["rt-multi-thread", "macros", "sync", "io-util", "time"] }
toml = "0.9"
