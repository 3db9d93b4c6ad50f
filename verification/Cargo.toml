[package]
name = "gdown"
version = "0.1.0"
edition = "2021"
publish = false

[dependencies]
url = "=2.5.8"
urlencoding = "=2.1.3"
scraper = "=0.29.0"
serde_json = "=1.0.154"
md-5 = "=0.10.6"
sha1 = "=0.10.7"
sha2 = "=0.10.9"
reqwest = { version = "=0.12.28", default-features = false, features = ["rustls-tls", "cookies", "blocking"] }
tokio = { version = "=1.54.1", features = ["full"] }
clap = { version = "=4.6.7", features = ["derive"] }
tracing = "=0.1.44"
tracing-subscriber = { version = "=0.3.23", features = ["env-filter"] }
indicatif = "=0.18.6"
dirs = "=7.0.0"
tempfile = "=3.27.0"
zip = "=9.2.2"
tar = "=0.4.46"
flate2 = "=1.1.10"
bzip2 = "=0.6.1"
thiserror = "=2.0.21"
