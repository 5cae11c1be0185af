[package]
name = "adjourn"
version = "0.1.0"
edition = "2021"
publish = false

[dependencies]
anyhow = "1"
bs58 = "=0.5.1"
ciborium = "=0.2.2"
clap = { version = "4", features = ["derive"] }
dioxus = { version = "=0.6.3", default-features = false, features = ["macro", "html", "signals", "hooks", "launch"] }
ed25519-dalek = { version = "=2.2.0", features = ["hazmat"] }
freenet-stdlib = { version = "=0.8.5", features = ["contract", "net"] }
futures = "0.3"
rand = "0.9"
sha2 = "=0.10.9"
shakmaty = "=0.29.4"
tokio = { version = "=1.54.1", features = ["macros", "rt-multi-thread", "time"] }
tokio-tungstenite = "=0.27.0"
wasm-bindgen = "0.2"
web-sys = { version = "0.3", features = ["Window", "Crypto", "WebSocket"] }
