[package]
name = "groot"
version = "0.1.0"
edition = "2021"
publish = false

[dependencies]
ammonia = "4.2.4"
notify-debouncer-mini = "0.5"
pulldown-cmark = { version = "0.13.6", default-features = false, features = ["html"] }
serde_json = "1.0.154"
