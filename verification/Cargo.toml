[package]
name = "osm2pio"
version = "0.1.0"
edition = "2021"
publish = false

[dependencies]
bytes = "=1.12.1"
clap = { version = "=4.6.7", features = ["derive"] }
deadpool-postgres = "=0.14.2"
geo = "=0.28.0"
geojson = "=0.24.2"
osmpbf = "=0.3.8"
postgres = { version = "=0.19.14", features = ["with-serde_json-1"] }
serde = { version = "=1.0.229", features = ["derive"] }
serde_json = "=1.0.154"
serde_yaml = "=0.9.34"
tokio = { version = "=1.54.1", features = ["rt-multi-thread", "macros"] }
tokio-postgres = { version = "=0.7.18", features = ["with-serde_json-1"] }
wkb = "=0.7.1"
