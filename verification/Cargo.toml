[package]
name = "hgl_sim"
version = "0.1.0"
edition = "2021"
publish = false

[dependencies]
serde = { version = "1", features = ["derive"] }
cpu_timer = "0.1.1"
