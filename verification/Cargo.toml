[package]
name = "nbp"
version = "0.1.0"
edition = "2021"
publish = false

[dependencies]
anyhow = "1"
chrono = "0.4"
cpal = "*"
ebur128 = "*"
hound = "3"
lewton = "*"
libc = "0.2"
log = "0.4"
reqwest = { version = "0.12", default-features = false, features = ["json"] }
ringbuf = "0.4"
rodio = "*"
rubato = "0.16"
serde = { version = "1", features = ["derive"] }
serde_json = "1"
serde_yaml = "0.9"
tokio = { version = "1", features = ["full"] }
uuid = { version = "1", features = ["v4"] }
vorbis_rs = "*"
