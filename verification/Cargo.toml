[package]
name = "stencilwright"
version = "0.1.0"
edition = "2021"
publish = false

[dependencies]
regex = "1"
sha2 = "0.10"
hex = "0.4"
lol_html = "*"
serde = { version = "1", features = ["derive"] }
serde_json = "1"
toml = "*"
toml_edit = "*"
clap = { version = "4", features = ["derive"] }
anyhow = "1"
dirs = "*"
libc = "0.2"
