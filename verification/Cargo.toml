[package]
name = "screeps_colony"
version = "0.1.0"
edition = "2021"
publish = false

[dependencies]
screeps-game-api = "=0.23.5"
serde = { version = "=1.0.229", features = ["derive"] }
serde_json = "=1.0.154"
wasm-bindgen = "=0.2.130"
js-sys = "=0.3.107"
log = "=0.4.35"
clap = { version = "=4.6.7", features = ["derive"] }
shlex = "=1.3.0"
unionfind = "*"
