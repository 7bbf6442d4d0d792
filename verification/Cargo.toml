[package]
name = "polyquery"
version = "0.1.0"
edition = "2021"
publish = false

[dependencies]
rstar = "*"
actix-web = "*"
clap = { version = "*", features = ["derive"] }
serde_json = "*"
shapefile = "*"
