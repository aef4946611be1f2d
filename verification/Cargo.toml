[package]
name = "layout_optimizer"
version = "0.1.0"
edition = "2021"
publish = false

[dependencies]
array2d = "0.3"
rand = "0.8"
regex = "1"
serde = { version = "1", features = ["derive"] }
serde_derive = "1"
strum = "0.26"
strum_macros = "0.26"
toml = "0.8"
