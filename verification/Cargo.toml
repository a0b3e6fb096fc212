[package]
name = "prompt_pipeline"
version = "0.1.0"
edition = "2021"
publish = false

[dependencies]
serde_json = "*"
tera = "*"
clap = { version = "*", features = ["derive"] }
openai-api = "*"
gcra = "*"
