[package]
name = "rusty_head_snake"
version = "0.1.0"
edition = "2021"
publish = false

[dependencies]
serde_json = "1"
rand = "*"
macroquad = "*"
euclid = "*"
thiserror = "*"
