[package]
name = "decklist_price"
version = "0.1.0"
edition = "2021"
publish = false

[dependencies]
governor = "=0.10.4"
regex = "=1.13.1"
scryfall = "=0.25.0"
simple_logger = "=5.2.0"
tokio = { version = "=1.54.1", features = ["macros", "rt-multi-thread"] }
