[package]
name = "freivald"
version = "0.1.0"
edition = "2021"
publish = false

[dependencies]
ark-bls12-381 = "=0.4.0"
ark-ff = "=0.4.2"
ark-std = { version = "=0.4.0", features = ["getrandom"] }
ndarray = "=0.15.6"
