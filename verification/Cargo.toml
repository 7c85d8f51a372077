[package]
name = "chunk_codec"
version = "0.1.0"
edition = "2021"
publish = false

[dependencies]
anyhow = "1"
brotlic = "*"
brotlic-sys = "*"
byteorder = "1"
clap = { version = "4", features = ["derive"] }
csv = "1"
human_bytes = "*"
lz4 = "*"
lzav = "*"
lzma-sys = "*"
serde = { version = "1", features = ["derive"] }
snap = "1"
xz2 = "*"
zstd = "*"
