[package]
name = "scene_bridge"
version = "0.1.0"
edition = "2021"
publish = false

[dependencies]
app_units = "=0.7.8"
euclid = "=0.22.14"
gleam = "=0.15.1"
webrender = "*"
