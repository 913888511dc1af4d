[package]
name = "collide_tree"
version = "0.1.0"
edition = "2021"

[dependencies]
num-traits = "0.2"
rand = "0.7"
