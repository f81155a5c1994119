[package]
name = "leansig_zkvm"
version = "0.1.0"
edition = "2021"
publish = false

[dependencies]
serde = { version = "=1.0.229", features = ["derive"] }
postcard = { version = "=1.1.3", features = ["alloc"] }
p3-koala-bear = "=0.4.3"
p3-field = "=0.4.3"
p3-symmetric = "=0.4.3"
sha2 = "=0.10.9"
sha3 = "=0.10.9"
hex = "=0.4.3"
rand = "=0.8.8"
libc = "=0.2.191"
clap = { version = "=4.6.7", features = ["derive"] }
bincode = "=1.3.3"

[dev-dependencies]
serde_json = "=1.0.154"
