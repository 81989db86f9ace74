[package]
name = "spatialbench"
version = "0.1.0"
edition = "2021"
publish = false

[dependencies]
rand = "=0.8.8"
geo = "=0.33.1"
geozero = { version = "=0.15.1", features = ["with-geo", "with-wkb"] }
duckdb = { version = "=1.20000.1", default-features = false }
arrow = { version = "=60.1.0", default-features = false }
serde = { version = "=1.0.229", features = ["derive"] }
serde_yaml = "=0.9.34"
anyhow = "=1.0.104"
log = "=0.4.35"
once_cell = "=1.21.4"
