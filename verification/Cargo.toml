[package]
name = "qq_group_name_extract"
version = "0.1.0"
edition = "2021"
publish = false

[dependencies]
scraper = "*"
clap = { version = "*", features = ["derive"] }
clap-verbosity-flag = "*"
csv = "*"
eyre = "*"
log = "*"
pretty_env_logger = "*"
walkdir = "*"
