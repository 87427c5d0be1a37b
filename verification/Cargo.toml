[package]
name = "hermes"
version = "0.1.0"
edition = "2021"
publish = false

[dependencies]
serde = { version = "1", default-features = false, features = ["derive"] }
postcard = { version = "1", features = ["heapless"] }
heapless = "0.8"
nb = "1"
fastrand = "2"
embassy-futures = "0.1"
embassy-sync = "0.6"
ringbuffer = "0.15"
embedded-io-async = "0.6"
derive_more = { version = "1", features = ["from", "deref", "deref_mut"] }
embassy-usb = "0.3"
tokio = { version = "1", features = ["rt-multi-thread", "macros", "io-std", "io-util", "time", "sync"] }
tokio-serial = { version = "5", default-features = false }
clap = { version = "4", features = ["derive"] }
anyhow = "1"
