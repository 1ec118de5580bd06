[package]
name = "annotate"
version = "0.1.0"
edition = "2021"
publish = false

[dependencies]
mustache = "0.9"
uuid = { version = "1", features = ["v4"] }
syn = { version = "2", features = ["full", "visit", "extra-traits"] }
quote = "1"
proc-macro2 = { version = "1", features = ["span-locations"] }
prettyplease = "0.2"
serde = { version = "1", features = ["derive"] }
serde_json = "1"
cargo_toml = "*"
once_cell = "1"
