[package]
name = "deboa"
version = "0.1.0"
edition = "2021"
publish = false

[dependencies]
http = "1"
url = "2"
cookie = "0.18"
base64 = "0.22"
urlencoding = "2"
indexmap = "2"
minimime = "*"
rand = "0.9"
time = "0.3"
bytes = "1"
hyper = { version = "1", features = ["client", "http1", "http2"] }
hyper-util = { version = "0.1", features = ["tokio"] }
http-body-util = "0.1"
tokio = { version = "1", features = ["net", "rt", "time", "macros"] }
tokio-rustls = { version = "0.26", default-features = false, features = ["ring", "tls12"] }
rustls = { version = "0.23", default-features = false, features = ["ring", "std", "tls12"] }
webpki-roots = "*"
trust-dns-resolver = "0.23"
serde = { version = "1", features = ["derive"] }
thiserror = "2"
