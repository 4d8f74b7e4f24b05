[package]
name = "interledger_btp"
version = "0.1.0"
edition = "2021"
publish = false

# chrono and hex are not called by this crate directly: interledger-packet
# declares both with default-features = false and still needs chrono's
# std/clock (its SystemTime conversion) and hex's default feature set
# (hex::encode); the direct entries below enable those by feature
# unification so interledger-packet builds on its own.
[dependencies]
interledger-packet = "=0.4.0"
bytes = "=0.4.12"
rand = "=0.10.3"
chrono = { version = "=0.4.31", features = ["std", "clock"] }
hex = "=0.4.3"
