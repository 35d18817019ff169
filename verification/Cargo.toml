[package]
name = "anthea"
version = "0.1.0"
edition = "2021"
publish = false

[dependencies]
rand = "0.7"
serde = { version = "1", features = ["derive"] }
ron = "0.5"
specs = "0.15"
specs-derive = "0.4"
rltk = "0.6"
