[package]
name = "pcd_playback"
version = "0.1.0"
edition = "2021"
publish = false

[dependencies]
anyhow = "1"
pcd-rs = { version = "0.13", features = ["derive"] }
rerun = { version = "0.21", default-features = false, features = ["sdk"] }
