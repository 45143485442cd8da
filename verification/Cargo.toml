[package]
name = "ssg"
version = "0.1.0"
edition = "2021"
publish = false

[dependencies]
ammonia = "=4.2.4"
blake3 = "=1.8.7"
clap = { version = "=4.6.7", features = ["derive"] }
mime_guess = "=2.0.5"
notify-debouncer-mini = "=0.7.0"
pulldown-cmark = "=0.13.5"
rayon = "=1.12.0"
serde = { version = "=1.0.229", features = ["derive"] }
serde_json = "=1.0.154"
serde_yaml = "=0.9.34"
tera = "=1.20.1"
tiny_http = "=0.12.0"
toml = "=1.1.8"
walkdir = "=2.5.0"
