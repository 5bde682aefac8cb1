[package]
name = "pickles_verifier"
version = "0.1.0"
edition = "2021"
publish = false

[dependencies]
base64 = "=0.22.1"
serde = { version = "1", features = ["derive"] }
serde_json = "1"
anyhow = "1"
clap = { version = "4", features = ["derive"] }
reqwest = { version = "0.12", default-features = false, features = ["blocking", "json", "rustls-tls"] }
hex = "0.4"
binprot = "0.1"
ark-ff = "0.5"
ark-ec = "0.5"
ark-serialize = "0.5"
blake2 = "0.10"
postcard = { version = "1", features = ["alloc"] }
rand_chacha = "0.3"
rand_core = "0.6"
tokio = { version = "1", features = ["macros", "rt-multi-thread"] }
