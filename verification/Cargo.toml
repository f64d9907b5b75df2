[package]
name = "game_logic"
version = "0.1.0"
edition = "2021"
publish = false

[dependencies]
futures = "0.3"
legion = "0.4"
serde = { version = "1", features = ["derive"] }
serde_json = "1"
tokio = { version = "1", features = ["macros", "rt-multi-thread", "sync", "time"] }
tokio-stream = "0.1"
uuid = { version = "1", features = ["v4"] }
vector2d = "*"
warp = "0.3"
wasm-bindgen = { version = "0.2", features = ["serde-serialize"] }
