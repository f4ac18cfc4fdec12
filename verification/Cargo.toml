[package]
name = "bakery"
version = "0.1.0"
edition = "2021"
publish = false

[dependencies]
anyhow = "1"
atom_syndication = "0.12"
chrono = "0.4"
clap = { version = "4", features = ["derive"] }
globwalk = "0.8"
grass = "0.13"
gray_matter = "0.2"
katex = "0.4"
notify = "4"
pulldown-cmark = "0.9"
rayon = "1"
serde = { version = "1", features = ["derive"] }
serde_json = "1"
syntect = { version = "5", default-features = false, features = ["default-fancy"] }
tera = "1"
toml = "0.8"
url = "2"
walkdir = "2"
