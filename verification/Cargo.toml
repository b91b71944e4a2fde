[package]
name = "oidc_core"
version = "0.1.0"
edition = "2021"
publish = false

[dependencies]
actix-web = "=4.15.0"
awc = "3"
base64 = "=0.22.1"
hmac = "=0.12.1"
jsonwebtoken = "=9.3.1"
rand = "=0.8.8"
serde_json = "=1.0.151"
sha2 = "=0.10.9"
