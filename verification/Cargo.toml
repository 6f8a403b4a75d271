[package]
name = "ultra_render"
version = "0.1.0"
edition = "2021"
publish = false

[dependencies]
serde_json = "1"
bytemuck = { version = "1", features = ["derive"] }
glam = "0.29"
log = "0.4"
env_logger = { version = "0.11", default-features = false }
zip = { version = "2", default-features = false, features = ["deflate"] }
