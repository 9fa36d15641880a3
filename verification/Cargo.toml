[package]
name = "flycam"
version = "0.1.0"
edition = "2021"
publish = false

[dependencies]
gl = "*"
glfw = "*"
image = { version = "*", default-features = false, features = ["jpeg", "png"] }
nalgebra-glm = "*"
