[package]
name = "fmusim"
version = "0.1.0"
edition = "2021"
publish = false

[dependencies]
annotate-snippets = "*"
anstream = "*"
anstyle = "*"
anyhow = "1"
clap = { version = "4", features = ["derive"] }
clap_complete = "4"
colored = "*"
crash-handler = "*"
roxmltree = "*"
serde = { version = "1", features = ["derive"] }
tempfile = "3"
term_size = "*"
toml = "*"
