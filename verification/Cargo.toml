[package]
name = "copula-core"
version = "0.2.0"
edition = "2021"
publish = false

[dependencies]
nalgebra = { version = "0.35", features = ["serde-serialize"] }
rand = "0.10"
rand_distr = "0.6"
statrs = "0.19"
argmin = { version = "0.11", default-features = false }
mv-norm = "*"
serde = { version = "1", features = ["derive"] }
serde_json = "1"
thiserror = "2"
