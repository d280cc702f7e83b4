[package]
name = "unpack"
version = "0.1.0"
edition = "2021"
publish = false

[dependencies]
anyhow = "=1.0.104"
bytesize = "=2.7.0"
clap = { version = "=4.6.7", features = ["derive"] }
fs_extra = "=1.3.0"
glob = "=0.3.4"
ignore = "=0.4.33"
rustpython-ast = { version = "=0.4.0", features = ["visitor"] }
rustpython-parser = "=0.4.0"
serde = { version = "=1.0.229", features = ["derive"] }
serde_json = "=1.0.151"
tabled = "=0.22.0"
toml = "=1.1.7"
