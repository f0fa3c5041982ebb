[package]
name = "txt2epub"
version = "0.1.0"
edition = "2021"
publish = false

[dependencies]
regex = "1"
anyhow = "1"
autocorrect = "2"
chinese-number = "0.7"
clap = { version = "4", features = ["derive"] }
colored = "2"
epub-builder = "0.7"
glob = "0.3"
image = "0.24"
lazy_static = "1"
log = "0.4"
pretty_env_logger = "0.5"
rayon = "1"
reqwest = { version = "0.11", default-features = false, features = ["blocking"] }
serde = { version = "1", features = ["derive"] }
tera = "1"
