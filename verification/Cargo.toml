[package]
name = "nova_traits"
version = "0.1.0"
edition = "2021"
publish = false

[dependencies]
bellperson = { version = "=0.27.0", default-features = false }
ff = "=0.13.1"
merlin = "=3.0.0"
num-bigint = "=0.4.8"

[dev-dependencies]
group = "=0.13.0"
pasta_curves = "0.5"
