[package]
name = "login-server"
version = "0.1.0"
edition = "2021"
publish = false

[dependencies]
bb8 = "=0.9.1"
bb8-tiberius = { version = "=0.16.0", default-features = false, features = ["chrono", "tds73", "tls", "with-tokio"] }
chrono = "=0.4.45"
serde = { version = "=1.0.229", features = ["derive"] }
tiberius = { version = "=0.12.3", default-features = false, features = ["tds73", "chrono", "rustls"] }
tokio = { version = "=1.54.1", features = ["rt-multi-thread", "macros", "net", "io-util", "sync", "time"] }
toml = "=1.1.8"
