[package]
name = "cargo-cleanall"
version = "0.1.0"
edition = "2021"
publish = false

[dependencies]
clap = { version = "4", features = ["cargo"] }
flexi_logger = "*"
human_bytes = "*"
log = "0.4"
miette = "*"
path-absolutize = "3"
thiserror = "1"
tokio = { version = "1", features = ["rt-multi-thread", "macros", "process", "fs"] }
walkdir = "2"
