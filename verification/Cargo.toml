[package]
name = "rust_gmail_sorter"
version = "0.1.0"
edition = "2021"
publish = false

[dependencies]
google-gmail1 = "2"
hyper = { version = "0.14", features = ["client", "http1", "http2", "runtime"] }
hyper-rustls = "0.22"
itertools = "0.10"
pancurses = "0.17"
tokio = { version = "1", features = ["macros", "rt-multi-thread"] }
