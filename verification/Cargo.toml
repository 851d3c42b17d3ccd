[package]
name = "slingshot"
version = "0.1.0"
edition = "2021"
publish = false

[dependencies]
anyhow = "=1.0.104"
clap = { version = "=4.6.7", features = ["derive"] }
colored = "=3.1.1"
indexmap = "=2.14.2"
parking_lot = "=0.12.5"
serde = { version = "=1.0.229", features = ["derive"] }
serde_json = "=1.0.151"
time = "=0.3.55"
tokio = { version = "=1.53.2", features = ["rt-multi-thread", "macros", "signal", "time"] }
ureq = { version = "=3.4.2", default-features = false, features = ["json"] }
warp = { version = "=0.4.3", features = ["server"] }
