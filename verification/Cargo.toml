[package]
name = "quic"
version = "0.1.0"
edition = "2021"
publish = false

[dependencies]
bytes = "1"
ring = "0.17"
rustls = { version = "0.23", default-features = false, features = ["ring", "std", "tls12"] }
rcgen = { version = "0.14", default-features = false, features = ["crypto", "ring", "pem"] }
webpki-roots = "1"
tokio = { version = "1", features = ["net", "sync", "time", "rt"] }
