[package]
name = "bib"
version = "0.1.0"
edition = "2021"
publish = false

[dependencies]
anyhow = "*"
biblatex = "*"
chrono = "*"
clap = { version = "*", features = ["derive"] }
indicatif = "*"
owo-colors = "*"
serde_json = "*"
ureq = "*"
url = "*"
