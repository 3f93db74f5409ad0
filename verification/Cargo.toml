[package]
name = "screener"
version = "0.1.0"
edition = "2021"
publish = false

[dependencies]
web3 = { version = "0.18", default-features = false }
serde = { version = "1", features = ["derive"] }
serde_json = "1"
json_comments = "0.2"
tokio = { version = "1", features = ["macros", "rt-multi-thread", "time"] }
reqwest = { version = "0.11", default-features = false, features = ["json", "rustls-tls"] }
rbatis = "4.5"
rbdc = "4.5"
rbdc-pg = "4.5"
async-trait = "0.1"
futures = "0.3"
rand = "0.8"
