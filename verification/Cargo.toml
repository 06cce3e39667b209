[package]
name = "rpo_glb"
version = "0.1.0"
edition = "2021"
publish = false

[dependencies]
flate2 = "1"
csv = "1"
reqwest = { version = "0.12", default-features = false, features = ["blocking", "rustls-tls"] }

[dev-dependencies]
gltf = { version = "1", default-features = false }
