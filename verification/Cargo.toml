[package]
name = "bitcoin_m31"
version = "0.1.0"
edition = "2021"
publish = false

[dev-dependencies]
rand = "=0.8.8"
rand_chacha = "=0.3.1"
p3-field = "=0.1.0"
p3-mersenne-31 = "=0.1.0"
