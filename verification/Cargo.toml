[package]
name = "mist"
version = "0.1.0"
edition = "2021"
publish = false

[dependencies]
byteorder = "=1.5.0"
rand = { version = "=0.8.8", features = ["small_rng"] }
anyhow = "=1.0.104"
tokio = { version = "=1.54.1", features = ["rt-multi-thread", "macros", "io-util", "net", "sync", "time"] }
serde = { version = "=1.0.229", features = ["derive"] }
serde_json = "=1.0.154"
sha1 = "0.10"
num-bigint = "0.4"
hex = "0.4"
craftflow-nbt = "*"
rsa = "0.9"
aes = "0.8"
cfb8 = "0.8"
flate2 = "1"
postcard = { version = "1", features = ["alloc"] }
reqwest = { version = "0.12", default-features = false, features = ["json"] }
once_cell = "1"
futures = "0.3"
rayon = "1"
noise = "0.9"
