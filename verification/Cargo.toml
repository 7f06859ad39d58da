[package]
name = "heatmap_tiles"
version = "0.1.0"
edition = "2021"
publish = false

[dependencies]
rstar = "*"
image = { version = "*", default-features = false, features = ["png"] }
actix-web = { version = "*", default-features = false, features = ["macros"] }
actix-files = "*"
parquet = { version = "*", default-features = false, features = ["snap"] }
serde = { version = "*", features = ["derive"] }
