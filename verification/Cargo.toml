[package]
name = "data_availability"
version = "0.1.0"
edition = "2021"
publish = false

[dependencies]
anyhow = "=1.0.104"
derive-hex = "=0.1.2"
dusk-bytes = "=0.1.7"
dusk-plonk = { version = "=0.8.2", default-features = false, features = ["alloc"] }
ipfs-embed = { version = "=0.22.4", default-features = false, features = ["tokio"] }
libipld = { version = "=0.12.0", default-features = false, features = ["dag-cbor"] }
multihash = { version = "=0.14.0", default-features = false, features = ["blake3", "multihash-impl", "std"] }
