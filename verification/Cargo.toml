[package]
name = "cryptoracle"
version = "0.1.0"
edition = "2021"
publish = false

[dependencies]
serde = { version = "1", features = ["derive"] }
serde_derive = "1"
serde_json = "1"
toml = "*"
hyper = { version = "0.14", features = ["full"] }
hyper-tls = "0.5"
native-tls = "0.2"
tokio = { version = "1", features = ["full"] }
mongodb = "2"
bson = "2"
gnuplot = "*"
