[package]
name = "listeria"
version = "0.1.0"
edition = "2021"
publish = false

[dependencies]
urlencoding = "2"
serde_json = "1"
roxmltree = "*"
wikibase = "*"
tokio = { version = "1", features = ["macros", "rt-multi-thread", "sync"] }
anyhow = "1"
config = "*"

[dev-dependencies]
regex = "1"
