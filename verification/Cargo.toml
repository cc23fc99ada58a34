[package]
name = "mdbook_include_rs"
version = "0.1.0"
edition = "2021"
publish = false

[dependencies]
anyhow = "1"
proc-macro2 = { version = "1", features = ["span-locations"] }
quote = "1"
syn = { version = "2", features = ["full", "visit", "extra-traits", "parsing", "printing"] }

[dev-dependencies]
regex = "1"
