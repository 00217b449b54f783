[package]
name = "fbx_import"
version = "0.1.0"
edition = "2021"
publish = false

[dependencies]
multimap = "*"
inflate = "*"
glm = "*"
num = "*"
