[package]
name = "trust_chat"
version = "0.1.0"
edition = "2021"
publish = false

[dependencies]
bytes = "*"
uuid = { version = "*", features = ["v4"] }
actix = "*"
actix-web = "*"
actix-web-actors = "*"
actix-http = "*"
tokio = { version = "*", features = ["net", "io-util", "rt", "macros"] }
tokio-util = { version = "*", features = ["codec"] }
structopt = "*"
