[package]
name = "nablo_ui"
version = "0.1.0"
edition = "2021"
publish = false

[dependencies]
indexmap = "2"
rayon = "1"
lyon_geom = "1"
bytemuck = { version = "1", features = ["derive"] }
serde = { version = "1", features = ["derive"] }
thiserror = "2"
time = "0.3"
