[package]
name = "committed"
version = "0.1.0"
edition = "2021"
publish = false

[dependencies]
unicode-segmentation = "*"
git2 = "*"
serde = { version = "*", features = ["derive"] }
structopt = "*"
toml = "*"
