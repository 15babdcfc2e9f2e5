[package]
name = "halo2_common"
version = "0.1.0"
edition = "2021"
publish = false

[dependencies]
ff = "=0.13.1"

[dev-dependencies]
halo2curves = "=0.6.1"
