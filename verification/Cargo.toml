[package]
name = "dask_planner"
version = "0.1.0"
edition = "2021"
publish = false

[dependencies]
chrono = { version = "=0.4.38", default-features = false }
datafusion-common = "=14.0.0"
datafusion-expr = "=14.0.0"
datafusion-optimizer = "=14.0.0"
