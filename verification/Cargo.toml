[package]
name = "krpc_gen"
version = "0.1.0"
edition = "2021"
publish = false

[dependencies]
regex = "1"
convert_case = "0.6"
serde = { version = "1", features = ["derive"] }
serde_json = "1"
handlebars = "4"
