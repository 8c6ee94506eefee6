[package]
name = "lefi"
version = "0.1.0"
edition = "2021"
publish = false

[dependencies]
serde = { version = "=1.0.229", features = ["derive"] }
serde_json = "=1.0.154"
rand = "=0.8.8"
rand_distr = "=0.4.3"
rayon = "=1.12.0"
sobol_burley = "0.5"
statrs = "0.17"
