[package]
name = "pyllow"
version = "0.0.6"
edition = "2021"
publish = false

[dependencies]
anyhow = "1"
clap = { version = "4", features = ["derive"] }
colored = "2"
globset = "0.4"
notify = "6"
rayon = "1"
regex = "1"
rustc-hash = "2"
rustpython-ast = "0.4"
rustpython-parser = "0.4"
serde = { version = "1", features = ["derive"] }
serde_json = "1"
tabled = "0.17"
tempfile = "3"
thiserror = "1"
toml = "0.8"
