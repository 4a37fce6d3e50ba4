[package]
name = "gradient_overlay"
version = "0.1.0"
edition = "2021"
publish = false

[dependencies]
actix-web = "4"
async-trait = "0.1"
env_logger = "0.11"
image = { version = "0.25", default-features = false, features = ["png", "jpeg"] }
kmeans_colors = { version = "0.6", default-features = false, features = ["palette_color"] }
log = "0.4"
palette = "0.7"
reqwest = { version = "0.12", default-features = false, features = ["rustls-tls"] }
serde = { version = "1", features = ["derive"] }
