[package]
name = "aramix"
version = "0.1.0"
edition = "2021"
publish = false

[dependencies]
rayon = "=1.12.0"
regex = "=1.13.1"
serde = { version = "=1.0.229", features = ["derive"] }
serde_json = "=1.0.151"
tokio = { version = "=1.53.2", features = ["full"] }
tokio-postgres = { version = "=0.7.18", features = ["with-uuid-1"] }
bb8 = "=0.8.6"
bb8-postgres = "=0.8.1"
axum = "=0.7.9"
bcrypt = "=0.15.1"
chrono = "=0.4.45"
jsonwebtoken = "=9.3.1"
uuid = { version = "=1.27.0", features = ["v4", "serde"] }
csv = "=1.4.0"

[dev-dependencies]
strsim = "=0.11.1"
