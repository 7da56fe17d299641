[package]
name = "formula_art"
version = "0.1.0"
edition = "2021"
publish = false

[dependencies]
hex = "0.4"
png = "0.16"
rand = "0.7"
rmp-serde = "*"
rouille = "3"
serde = { version = "1", features = ["derive"] }
