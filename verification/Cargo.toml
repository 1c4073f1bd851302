[package]
name = "packobf"
version = "0.2.1"
edition = "2021"
publish = false

[dependencies]
sha2 = "=0.11.1"
libdeflater = "=1.26.1"
zopfli = "=0.8.4"
regex = "=1.13.1"
clap = { version = "=4.6.7", features = ["derive"] }
zip = { version = "=9.2.2", default-features = false, features = ["deflate"] }
serde = { version = "=1.0.229", features = ["derive"] }
serde_json = "=1.0.154"
oxipng = { version = "=10.2.1", default-features = false }
optivorbis = "=0.3.2"
glsl-lang = "*"
smol_str = "*"
once_cell = "*"
