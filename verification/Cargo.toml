[package]
name = "turtle_bag"
version = "0.1.0"
edition = "2021"
publish = false

[dependencies]
turtle = "1.0.0-rc.3"
