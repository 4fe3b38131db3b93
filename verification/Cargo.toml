[package]
name = "authmap"
version = "0.1.0"
edition = "2021"
publish = false

[dependencies]
futures = "=0.1.31"
influent = "=0.5.3"
maxminddb = "=0.18.0"
tokio = "=0.1.22"

[dev-dependencies]
regex = "=1.13.1"
