[package]
name = "ws_engine"
version = "0.1.0"
edition = "2021"
publish = false

[dependencies]
sha1 = "=0.11.0"
rustc-serialize = "=0.3.25"
mio = { version = "=1.2.4", features = ["net", "os-poll"] }
http-muncher = "=0.3.2"
