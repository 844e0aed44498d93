[package]
name = "comicli"
version = "0.1.0"
edition = "2021"
publish = false

[dependencies]
image = "*"
rand = "*"
serde_json = "*"
structopt = "*"
termcolor = "*"
reqwest = { version = "*", default-features = false, features = ["blocking", "rustls-tls"] }
