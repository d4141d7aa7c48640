[package]
name = "rblock"
version = "0.1.0"
edition = "2021"
publish = false

[dependencies]
rand = "0.7"
bevy = "0.6"
tokio = { version = "1", features = ["macros", "rt-multi-thread"] }
tonic = "0.6"
prost = "0.9"
