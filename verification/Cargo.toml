[package]
name = "mesh_batch"
version = "0.1.0"
edition = "2021"
publish = false

[dependencies]
amethyst = { version = "0.15", default-features = false, features = ["empty"] }
amethyst_rendy = { version = "0.5", features = ["empty"] }
derivative = "2"
failure = "0.1"
gfx-hal = "0.3"
glsl-layout = "0.3"
guard = "0.5"
lazy_static = "1"
log = "0.4"
rand = "0.7"
rendy-util = "0.4"
serde = { version = "1", features = ["derive"] }
shaderc = "0.6"
smallvec = "1"
