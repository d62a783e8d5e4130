[package]
name = "parsesm"
version = "0.1.0"
edition = "2021"
publish = false

[dependencies]
scraper = "*"
sourcemap = "*"
reqwest = { version = "*", default-features = false, features = ["rustls-tls"] }
tokio = { version = "*", features = ["rt-multi-thread", "macros"] }
ansi_term = "*"
