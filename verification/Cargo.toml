[package]
name = "bigbirdeval"
version = "0.1.0"
edition = "2021"
publish = false

[dependencies]
rand = "0.8"
rustc-hash = "2"
anyhow = "1"
clap = { version = "4", features = ["derive"] }
serde = { version = "1", features = ["derive"] }
serde_json = "1"
flate2 = "1"
kdam = "*"
log = "0.4"
log4rs = { version = "1", default-features = false, features = ["config_parsing", "yaml_format", "console_appender", "file_appender"] }
mimalloc = "*"
statrs = "0.17"
terminal_size = "*"
thread_local = "1"
time = { version = "0.3", features = ["macros", "formatting", "local-offset"] }
nohash = "*"
enum_dispatch = "*"
polars = { version = "*", default-features = false, features = ["parquet", "rows"] }
