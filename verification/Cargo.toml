[package]
name = "wgit"
version = "0.1.0"
edition = "2021"
publish = false

[dependencies]
tree-sitter = "0.25"
tree-sitter-rust = "0.24"
tree-sitter-toml-ng = "0.7"
anyhow = "1"
gix = { version = "0.72", default-features = false }
wgpu = "25"
winit = "0.30"
ab_glyph = "0.2"
bytemuck = { version = "1", features = ["derive"] }
pollster = "0.4"
env_logger = "0.11"
