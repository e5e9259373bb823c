[package]
name = "winrm"
version = "1.1.3"
edition = "2021"
publish = false

[dependencies]
base64 = "0.22"
hmac = "0.12"
md-5 = "0.10"
reqwest = { version = "0.13", default-features = false, features = ["rustls-no-provider"] }
rustls = { version = "0.23", default-features = false, features = ["ring", "std", "tls12"] }
secrecy = "0.10"
subtle = "2"
thiserror = "2"
tokio = { version = "1", features = ["macros", "rt", "sync", "time"] }
tracing = "0.1"
uuid = { version = "1", features = ["v4"] }
webpki-roots = "1"
zeroize = "1"
