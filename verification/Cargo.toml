[package]
name = "grok_lines"
version = "0.1.0"
edition = "2021"
publish = false

[dependencies]
grok = "*"
structopt = "0.3"

[dev-dependencies]
serde_json = "1"
