[package]
name = "air_vinyl"
version = "0.1.0"
edition = "2021"
publish = false

[dependencies]
tokio = { version = "0.2", features = ["full"] }
warp = "0.2"
docopt = "1"
log = "0.4"
stderrlog = "*"
serde = { version = "1", features = ["derive"] }
