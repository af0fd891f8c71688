[package]
name = "mlp"
version = "0.1.0"
edition = "2021"
publish = false

[dependencies]
rand = "=0.8.8"
rand_distr = "=0.4.3"
rayon = "=1.12.0"
clap = { version = "=4.6.7", features = ["derive"] }
csv = "=1.4.0"
plotters = "=0.3.7"
matrixmultiply = "=0.3.11"
cblas-sys = "=0.1.4"
cudarc = { version = "=0.12.1", features = ["cuda-12060"] }
fastrand = "=2.5.0"
