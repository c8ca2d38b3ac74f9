[package]
name = "rvm2glb"
version = "0.1.0"
edition = "2021"
publish = false

[dependencies]
md5 = "0.7"
meshopt = "*"
bytemuck = "1"
serde_json = "1"
anyhow = "1"
clap = { version = "4", features = ["derive"] }
