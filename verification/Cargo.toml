[package]
name = "skilltreedocs"
version = "0.1.0"
edition = "2021"
publish = false

[dependencies]
comrak = "*"
scraper = "*"
serde = { version = "*", features = ["derive"] }
rocket = { version = "*", features = ["json"] }
tera = "*"
