[package]
name = "bbqvec"
version = "0.1.0"
edition = "2021"
publish = false

[dependencies]
croaring = "*"
roaring = "*"
bitvec = "*"
anyhow = "*"
rand = "*"
serde = { version = "*", features = ["derive"] }
serde_json = "*"
memmap2 = "*"
bytemuck = "*"
byteorder = "*"

[dev-dependencies]
half = "*"
