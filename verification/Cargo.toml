[package]
name = "rek2_nntp"
version = "0.1.0"
edition = "2021"
publish = false

[dependencies]
native-tls = "0.2"
tokio = { version = "1", features = ["io-util", "macros", "net", "rt", "time"] }
tokio-native-tls = "0.3"
