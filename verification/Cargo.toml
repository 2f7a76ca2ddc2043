[package]
name = "card_est_array"
version = "0.1.0"
edition = "2021"
publish = false

[dependencies]
sync-cell-slice = "*"

[dev-dependencies]
xxhash-rust = { version = "*", features = ["xxh3"] }
