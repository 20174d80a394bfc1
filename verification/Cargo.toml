[package]
name = "comic_core"
version = "0.1.0"
edition = "2021"
publish = false

[dependencies]
anyhow = "=1.0.104"
bzip2 = "=0.4.4"
chardetng = "=0.1.17"
encoding_rs = "=0.8.44"
flate2 = "=1.1.10"
image = { version = "=0.25.10", default-features = false, features = ["png", "jpeg", "gif", "bmp", "tiff", "webp"] }
lru = "=0.12.5"
rayon = "=1.12.0"
rusqlite = { version = "=0.31.0", features = ["bundled"] }
serde = { version = "=1.0.229", features = ["derive"] }
sevenz-rust = "=0.6.1"
tar = "=0.4.46"
thiserror = "=1.0.69"
unrar = "=0.5.8"
xattr = "=1.7.0"
xz2 = "=0.1.7"
zip = { version = "=2.6.1", default-features = false, features = ["deflate"] }
