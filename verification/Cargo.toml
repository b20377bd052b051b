[package]
name = "bearmark"
version = "0.1.0"
edition = "2021"
publish = false

[dependencies]
rand = "=0.9.5"
urlencoding = "=2.1.3"
regex-syntax = "=0.8.11"
time = { version = "=0.3.55", features = ["serde-well-known"] }
serde = { version = "=1.0.229", features = ["derive"] }
thiserror = "=2.0.21"
tracing = "=0.1.44"
tracing-subscriber = { version = "=0.3.23", features = ["env-filter"] }
rocket = { version = "=0.5.2", features = ["json"] }
rocket_db_pools = "=0.2.0"
diesel = { version = "=2.3.14", default-features = false, features = ["postgres_backend", "time"] }
diesel-async = { version = "=0.9.2", features = ["postgres", "deadpool"] }
gloo-net = "0.6"
web-sys = { version = "=0.3.106", features = ["Window", "Location"] }
