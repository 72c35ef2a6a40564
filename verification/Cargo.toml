[package]
name = "render_engine"
version = "0.1.0"
edition = "2021"
publish = false

[dependencies]
uuid = { version = "1", features = ["v7"] }
vulkano = "0.35"
shaderc = "0.8"
