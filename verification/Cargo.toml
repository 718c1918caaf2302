[package]
name = "eyers"
version = "0.1.0"
edition = "2021"
publish = false

[dependencies]
gtk4 = { version = "*", features = ["v4_12"] }
pdfium-render = "*"
reqwest = { version = "*", default-features = false, features = ["blocking", "json"] }
rusqlite = "*"
serde = { version = "*", features = ["derive"] }
dirs = "*"
