[package]
name = "quantrs"
version = "0.1.0"
edition = "2021"
publish = false

[dependencies]
chrono = "0.4"
reqwest = { version = "0.12", default-features = false, features = ["json", "cookies", "rustls-tls"] }
tokio = { version = "1", features = ["sync", "macros", "rt-multi-thread", "time"] }
serde = { version = "1", features = ["derive"] }
serde-aux = "4"
statrs = "0.18"
rand = "0.9"
rand_distr = "0.5"
csv = "1"
ndarray = "0.16"
ndarray-stats = "0.6"
plotters = { version = "0.3", default-features = false, features = ["bitmap_backend", "bitmap_encoder", "line_series", "point_series"] }
pyo3 = { version = "0.27", features = ["abi3-py38"] }
