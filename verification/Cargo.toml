[package]
name = "distance_tracker"
version = "0.1.0"
edition = "2021"
publish = false

[dependencies]
clap = { version = "=4.6.7", default-features = false, features = ["derive", "std", "help"] }
clap_derive = "=4.6.7"
serde = { version = "=1.0.229", features = ["derive"] }
serde_json = "=1.0.151"
tokio = { version = "=1.53.2", default-features = false, features = ["rt-multi-thread", "macros", "sync", "time"] }
zenoh = { version = "=1.10.1", default-features = false }
