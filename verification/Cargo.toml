[package]
name = "n_body"
version = "0.1.0"
edition = "2021"
publish = false

[dependencies]
anyhow = "1"
egui-macroquad = "0.15"
iter_tools = "*"
macroquad = "0.3"
rand = "0.8"
rayon = "1"
ron = "0.8"
serde = { version = "1", features = ["derive"] }
