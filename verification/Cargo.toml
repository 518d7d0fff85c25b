[package]
name = "pkmnapi"
version = "0.1.0"
edition = "2021"
publish = false

[dependencies]
byteorder = "1"
md5 = "0.7"
serde = { version = "1", features = ["derive"] }
serde_json = "1"
rocket = { version = "0.5", features = ["json"] }
rocket_cors = "0.6"
