[package]
name = "spellhaven"
version = "0.1.0"
edition = "2021"
publish = false

[dependencies]
rand = "0.9"
noise = "0.9"
fastnoise-lite = "1"
vox-format = "0.1"
num-traits = "0.2"
futures-lite = "2"
bevy = { version = "0.13", default-features = false }
