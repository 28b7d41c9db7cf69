[package]
name = "x-influx"
version = "0.5.0"
edition = "2021"
publish = false

[dependencies]
chrono = "=0.4.45"
docopt = "=1.1.1"
influent = "=0.5.3"
serde = "=1.0.229"
serde_derive = "=1.0.229"
tokio = "=0.1.22"
