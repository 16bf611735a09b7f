[package]
name = "layout_planner"
version = "0.1.0"
edition = "2021"
publish = false

[dependencies]
rand = "0.8"
rug = { version = "1", default-features = false, features = ["integer"] }
