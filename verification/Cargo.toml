[package]
name = "credo"
version = "0.1.0"
edition = "2021"
publish = false

[dependencies]
hex = "=0.4.3"
base64 = "=0.22.1"
sha2 = "=0.10.9"
chrono = "=0.4.45"
pem = "=3.0.6"
x509-parser = { version = "=0.16.0", features = ["verify"] }
psl = "=2.1.246"
p256 = { version = "=0.13.2", features = ["ecdsa", "pem", "pkcs8"] }
p384 = { version = "=0.13.1", features = ["ecdsa", "pem", "pkcs8"] }
rsa = { version = "=0.9.10", features = ["sha2"] }
pkcs8 = { version = "=0.10.2", features = ["pem"] }
rand = "=0.8.8"
serde = { version = "=1.0.229", features = ["derive"] }
serde_json = "=1.0.154"
rustls-pemfile = "2"
subtle = "2"

[dev-dependencies]
rcgen = "=0.12.1"
