[package]
name = "jwt_rotation"
version = "0.1.0"
edition = "2021"
publish = false

[dependencies]
jsonwebtoken = { version = "=11.1.0", features = ["rust_crypto"] }
base64 = "=0.22.1"
async-trait = "=0.1.92"
futures = "=0.3.34"

[dev-dependencies]
serde_json = "*"
