[package]
name = "opencc_jieba_rs"
version = "0.8.0"
edition = "2021"
publish = false

[dependencies]
rustc-hash = "2"
encoding_rs = "0.8"
encoding_rs_io = "0.1"
clap = "4"
serde = { version = "1", features = ["derive"] }
