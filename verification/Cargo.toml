[package]
name = "yipd"
version = "0.1.0"
edition = "2021"
publish = false

[dependencies]
getrandom = "0.2"
quinn-proto = { version = "0.11", default-features = false, features = ["rustls-ring"] }
rustls = { version = "0.23", default-features = false, features = ["ring", "std"] }
rcgen = { version = "0.13", default-features = false, features = ["crypto", "ring"] }
bytes = "1"
tokio = { version = "1", features = ["rt", "net", "time", "io-util", "macros"] }
