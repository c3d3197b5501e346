[package]
name = "rusty_ts"
version = "0.1.0"
edition = "2021"
publish = false

[dependencies]
chrono = "0.4"
chrono-tz = "0.10"
regex = "1"
clap = { version = "4", features = ["derive"] }
clap_complete = "4"
thiserror = "2"

[dev-dependencies]
static_assertions = "1"
