[package]
name = "alien_codec"
version = "0.1.0"
edition = "2021"
publish = false

[dependencies]
hyper = { version = "0.14", features = ["client", "http1", "tcp"] }
http-body = "0.4"
tokio = { version = "1", features = ["macros", "rt-multi-thread"] }
