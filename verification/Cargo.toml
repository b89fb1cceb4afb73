[package]
name = "wm_config"
version = "0.1.0"
edition = "2021"
publish = false

[dependencies]
penrose = "*"
penrose_ui = "*"
tracing-subscriber = { version = "*", features = ["env-filter"] }
