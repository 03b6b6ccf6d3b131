[package]
name = "barcode_proto"
version = "0.1.0"
edition = "2021"
publish = false

[dependencies]
anyhow = "=1.0.104"
base64 = "=0.22.1"
qrcode = { version = "=0.14.1", default-features = false, features = ["svg"] }
iroh = "=1.4.1"
iroh-tickets = "=1.0.0"
tokio = { version = "=1.54.1", features = ["full"] }
tracing = "=0.1.44"
tracing-subscriber = { version = "=0.3.23", features = ["env-filter"] }
jni = "=0.21.1"
ndk-context = "=0.1.1"
arboard = { version = "3", default-features = false }
opener = { version = "0.8", default-features = false }
