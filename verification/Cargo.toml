[package]
name = "work_tock"
version = "0.1.0"
edition = "2021"
publish = false

[dependencies]
anyhow = "*"
chrono = "0.4"
clap = "2"
clap_conf = "*"
err_tools = "*"
