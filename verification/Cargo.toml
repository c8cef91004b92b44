[package]
name = "dank_paste"
version = "0.1.0"
edition = "2021"
publish = false

[dependencies]
rand = "0.8"
serde = "1"
serde_derive = "1"
serde_json = "1"
rocket = { version = "0.5", features = ["json"] }
rocket_dyn_templates = { version = "0.2", features = ["tera"] }
multipart = { version = "0.18", default-features = false, features = ["server"] }
