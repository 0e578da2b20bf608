[package]
name = "wikigraph"
version = "0.1.0"
edition = "2021"
publish = false

[dependencies]
quick-xml = "*"
parse-wiki-text-2 = "*"
rusqlite = { version = "*", features = ["bundled"] }
colored = "*"
console = "*"
dialoguer = "*"
indicatif = "*"
