[package]
name = "grid_ingest"
version = "0.1.0"
edition = "2021"
publish = false

[dependencies]
chrono = "*"
serde = { version = "*", features = ["derive"] }
bson = "*"
mongodb = "*"
netcdf = "*"
tokio = { version = "*", features = ["macros", "rt-multi-thread"] }
