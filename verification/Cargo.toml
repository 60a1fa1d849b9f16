[package]
name = "bredis"
version = "0.1.0"
edition = "2021"
publish = false

[dependencies]
actix-web = "=4.18.1"
apistos = { version = "=0.9.0", features = ["scalar"] }
apistos-models = "=0.9.0"
apistos-schemars = "=0.8.22"
async-trait = "=0.1.92"
bincode = "=1.3.3"
chrono = "=0.4.45"
clap = { version = "=4.6.7", features = ["cargo", "string"] }
env_logger = "=0.11.11"
futures = "=0.3.34"
log = "=0.4.34"
rand = "=0.8.8"
rocksdb = "=0.25.0"
serde = { version = "=1.0.229", features = ["derive"] }
surrealkv = "=1.0.0"
tokio = { version = "=1.54.1", features = ["full"] }
