[package]
name = "rs_console"
version = "0.1.0"
edition = "2021"
publish = false

[dependencies]
lru_time_cache = "=0.11.11"
rusttype = "=0.9.3"
owned_ttf_parser = "=0.15.2"
backtrace = "*"
thiserror = "*"
