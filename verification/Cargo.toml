[package]
name = "hallway"
version = "0.1.0"
edition = "2021"
publish = false

[dependencies]
serde = { version = "=1.0.229", features = ["derive"] }
serde_json = "=1.0.151"
serde_yaml = "=0.9.34"
toml = "=1.1.7"
handlebars = "=6.4.4"
warp = { version = "=0.4.3", features = ["server", "compression"] }
tokio = { version = "=1.53.2", features = ["macros", "rt", "time"] }
tracing = "=0.1.44"
tracing-subscriber = "=0.3.23"
reqwest = { version = "=0.13.5", default-features = false, features = ["blocking", "json"] }
aliri = { version = "=0.6.4", features = ["ec"] }
aliri_clock = "=0.1.4"
