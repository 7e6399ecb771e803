[package]
name = "javy_marshal"
version = "0.1.0"
edition = "2021"
publish = false

[dependencies]
anyhow = "=1.0.104"
fastrand = "=2.5.0"
rquickjs = "=0.6.2"
