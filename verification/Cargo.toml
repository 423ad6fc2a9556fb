[package]
name = "join_proxy"
version = "0.1.0"
edition = "2021"
publish = false

[dependencies]
rand = "=0.8.8"
sha2 = "=0.10.9"
hex = "=0.4.3"
base64 = "=0.22.1"
der = "=0.7.10"
pkcs8 = "=0.10.2"
sec1 = "=0.7.3"
elliptic-curve = "=0.13.8"
ic-agent = "=0.49.3"
p256 = "=0.13.2"
k256 = "=0.13.4"
ic-ed25519 = "=0.6.0"
blst = "=0.3.17"
serde_cbor = "=0.11.2"
candid = "=0.10.39"
ic-transport-types = "=0.49.3"
serde = { version = "=1.0.229", features = ["derive"] }
serde_json = "=1.0.154"
clap = { version = "=4.6.7", features = ["derive"] }
toml = "=0.8.23"
actix = "=0.13.5"
actix-web = { version = "=4.18.1", default-features = false, features = ["macros", "rustls-0_23"] }
oxide-auth = "=0.6.1"
oxide-auth-actix = "=0.3.0"
url = "=2.5.8"
chrono = "=0.4.45"
tokio = { version = "=1.54.1", features = ["full"] }
reqwest = { version = "=0.12.28", default-features = false, features = ["rustls-tls"] }
rustls = { version = "=0.23.46", default-features = false, features = ["ring", "std", "tls12", "logging"] }
diesel = { version = "=2.3.14", features = ["postgres", "chrono"] }
