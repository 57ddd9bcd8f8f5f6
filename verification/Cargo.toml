[package]
name = "subtools"
version = "0.1.0"
edition = "2021"
publish = false

[dependencies]
anyhow = "1"
chardetng = "*"
clap = { version = "4", features = ["derive"] }
encoding_rs = "*"
image = { version = "*", default-features = false, features = ["pnm"] }
leptess = "*"
matroska-demuxer = "*"
subtile = "*"
thiserror = "*"
