[package]
name = "sitefix"
version = "0.1.0"
edition = "2021"
publish = false

[dependencies]
anyhow = "1"
clap = { version = "3", features = ["derive"] }
futures = "0.3"
lol_html = "0.3"
regex = "1"
tokio = { version = "1", features = ["fs", "io-util", "macros", "rt-multi-thread", "time"] }
twelf = { version = "0.7", default-features = false, features = ["clap", "env", "json", "toml", "yaml"] }
urlencoding = "2"
wax = "0.5"
