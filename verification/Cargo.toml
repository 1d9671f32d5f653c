[package]
name = "fil_proofs_bin"
version = "0.1.0"
edition = "2021"
publish = false

[dependencies]
anyhow = "=1.0.104"
bellperson = { version = "=0.27.0", default-features = false }
bincode = "=1.3.3"
blstrs = "=0.7.1"
ff = "=0.13.1"
fil_logger = "=0.1.7"
filecoin-hashers = { version = "=14.1.0", default-features = false, features = ["poseidon", "sha256"] }
filecoin-proofs = { version = "=19.1.0", default-features = false }
generic-array = "=0.14.9"
log = "=0.4.34"
merkletree = "=0.23.0"
rand = "=0.8.8"
rayon = "=1.12.0"
serde = { version = "=1.0.229", features = ["derive"] }
serde-hex = "=0.1.0"
serde_json = "=1.0.154"
storage-proofs-core = { version = "=19.1.0", default-features = false }
storage-proofs-porep = { version = "=19.1.0", default-features = false }
tracking-allocator = "=0.4.0"
