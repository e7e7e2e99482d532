[package]
name = "farminfo"
version = "0.1.0"
edition = "2021"
publish = false

[dependencies]
sha2 = "=0.10.9"
digest = "=0.10.7"
hex = "=0.4.3"
geohash = "=0.13.2"
candid = "=0.10.39"
ic-cdk = "=0.13.6"
serde = "=1.0.229"
