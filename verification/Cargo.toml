[package]
name = "pairing_signatures"
version = "0.1.0"
edition = "2021"
publish = false

[dependencies]
bls12_381 = { version = "0.8", features = ["experimental"] }
pairing = "0.23"
ff = "0.13"
group = "0.13"
rand = "0.8"
sha2 = "0.9"
rayon = "1"
libc = "0.2"
serde = { version = "1", features = ["derive"] }
serde_json = "1"
hex = "0.4"
byteorder = "1"
anyhow = "1"
rpassword = "7"
