[package]
name = "supertag"
version = "0.1.0"
edition = "2021"
publish = false

[dependencies]
ttl_cache = "=0.5.1"
md5 = "=0.7.0"
rusqlite = { version = "=0.41.0", features = ["bundled"] }
clap = "=2.34.0"
libc = "=0.2.191"
nix = "=0.31.3"
directories = "=6.0.0"
serde = { version = "=1.0.229", features = ["derive"] }
serde_json = "=1.0.154"
metrohash = "=1.0.7"
config = { version = "0.10", default-features = false, features = ["toml"] }
