[package]
name = "blast_radius"
version = "0.1.0"
edition = "2021"
publish = false

[dependencies]
anyhow = "1"
clap = { version = "4", features = ["derive"] }
clap_complete = "4"
figlet-rs = "*"
ignore = "*"
jsonc-parser = { version = "*", features = ["serde"] }
rustpython-parser = "*"
serde = { version = "1", features = ["derive"] }
serde_json = "1"
swc_common = "*"
swc_ecma_ast = "*"
swc_ecma_parser = "*"
swc_ecma_visit = "*"
syn = { version = "2", features = ["full"] }
toml = "*"
