[package]
name = "petrichor"
version = "0.1.0"
edition = "2021"
publish = false

[dependencies]
anyhow = "1"
bevy_utils = "=0.13.2"
dns-lookup = "2"
itertools = "0.12"
obj-rs = "0.7"
rand = "=0.8.8"
serde = { version = "1", features = ["derive"] }
thiserror = "1"
transvoxel = "1"
wavefront_obj = "*"
