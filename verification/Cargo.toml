[package]
name = "iotdb-client"
version = "0.1.0"
edition = "2021"
publish = false

[dependencies]
log = "0.4"
rustls = { version = "0.23", default-features = false, features = ["ring", "std", "tls12", "logging"] }
rustls-native-certs = "0.8"
rustls-pemfile = "2"
socket2 = "0.5"
thrift = "0.17"
