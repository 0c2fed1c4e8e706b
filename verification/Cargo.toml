[package]
name = "material_color_utils"
version = "0.1.0"
edition = "2021"
publish = false

[dependencies]
indexmap = "2"
serde = { version = "1", features = ["derive"] }
thiserror = "2"
rayon = "1"
bon = "3"
image = { version = "0.25", default-features = false, features = ["png"] }
