[package]
name = "mdbook_runnable_examples"
version = "0.1.0"
edition = "2021"
publish = false

[dependencies]
anyhow = "*"
base64 = "*"
mdbook-preprocessor = "*"
pulldown-cmark = { version = "*", default-features = false, features = ["html"] }
serde = { version = "*", features = ["derive"] }
serde_json = "*"
sha2 = "*"
tempfile = "*"

[dev-dependencies]
regex = "*"
