[package]
name = "component_storage"
version = "0.1.0"
edition = "2021"
publish = false

[dependencies]
generational-arena = { version = "0.2", default-features = false, features = ["std"] }
