[package]
name = "pigeons"
version = "0.1.0"
edition = "2021"
publish = false

[dependencies]
anyhow = "=1.0.104"
clap = { version = "=4.6.7", default-features = false, features = ["derive", "std", "help", "usage", "error-context"] }
dirs = "6"
ed25519-dalek = "=3.0.0"
iroh = { version = "=1.4.1", default-features = false, features = ["tls-ring"] }
serde = { version = "1", features = ["derive"] }
tempfile = "3"
tokio = { version = "=1.54.1", features = ["fs", "io-std", "io-util", "macros", "net", "rt-multi-thread", "signal", "time"] }
toml = "0.9"
tracing = "0.1"
tracing-subscriber = { version = "0.3", default-features = false, features = ["env-filter", "fmt"] }
z32 = "=1.3.0"
