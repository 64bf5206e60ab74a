[package]
name = "rustwarp"
version = "0.1.0"
edition = "2021"
publish = false

[dependencies]
bytemuck = "1"
futures-intrusive = "0.5"
pollster = "0.3"
rand = "0.8"
tokio = { version = "1", features = ["macros", "rt-multi-thread"] }
wgpu = "0.19"
image = { version = "0.24", default-features = false, features = ["png"] }
