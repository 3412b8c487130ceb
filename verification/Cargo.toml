[package]
name = "hns_browser"
version = "0.1.0"
edition = "2021"
publish = false

[dependencies]
base64 = "0.22"
getrandom = "0.3"
httparse = "1"
idna = "1"
rcgen = { version = "0.14", default-features = false, features = ["crypto", "ring", "pem", "x509-parser", "zeroize"] }
ring = "0.17"
rusqlite = { version = "*", features = ["bundled"] }
rustls = { version = "0.23", default-features = false, features = ["ring", "std", "tls12"] }
subtle = "2"
thiserror = "2"
time = "0.3"
zeroize = "1"
