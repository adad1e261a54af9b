[package]
name = "anki_search"
version = "0.1.0"
edition = "2021"
publish = false

[dependencies]
regex = "1"

[dev-dependencies]
nom = "5.1"
