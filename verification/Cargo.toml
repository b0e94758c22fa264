[package]
name = "sitegen"
version = "0.1.0"
edition = "2021"
publish = false

[dependencies]
itertools = "=0.10.5"
lazy_static = "=1.5.1"
notify = "=4.0.18"
rocket = "0.5"
rocket_dyn_templates = { version = "*", features = ["tera"] }
serde = { version = "=1.0.229", features = ["derive"] }
walkdir = "=2.5.0"
