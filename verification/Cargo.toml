[package]
name = "joulex"
version = "0.1.0"
edition = "2021"
publish = false

[dependencies]
anyhow = "1"
clap = { version = "4", features = ["cargo", "string"] }
clap_complete = "4"
colored = "2"
csv = "1"
ctrlc = "3"
indicatif = "0.17"
libc = "0.2"
rand = "0.8"
regex = "1"
rust_decimal = "1"
serde = { version = "1", features = ["derive"] }
serde_json = "1"
shell-words = "1"
statistical = "1"

[dev-dependencies]
approx = "0.5"
tempfile = "3"
