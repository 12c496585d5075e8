[package]
name = "packed_data"
version = "0.1.0"
edition = "2021"
publish = false

[dependencies]
bytemuck = "1"
bytemuck_derive = "1"
memmap2 = "0.9"
sha2 = "0.10"
thiserror = "1"
zstd = "0.13"

[dev-dependencies]
tempfile = "3"
