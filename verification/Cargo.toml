[package]
name = "vs_buildtools"
version = "0.1.0"
edition = "2021"
publish = false

[dependencies]
anyhow = "=1.0.104"
clap = { version = "=4.6.7", features = ["derive"] }
fs_extra = "=1.3.0"
glob = "=0.3.4"
lnk = "=0.5.1"
rayon = "=1.12.0"
reqwest = { version = "=0.12.28", default-features = false, features = ["blocking", "rustls-tls"] }
walkdir = "=2.5.0"
zsnip = "=0.2.0"
