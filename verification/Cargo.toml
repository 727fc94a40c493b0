[package]
name = "lidar_scan"
version = "0.1.0"
edition = "2021"
publish = false

[dependencies]
gl = "*"
glfw = "*"
image = "*"
minifb = "*"
mujoco-rs-sys = "*"
mujoco-rust = "*"
