[package]
name = "minigu"
version = "0.1.0"
edition = "2021"
publish = false

[dependencies]
anyhow = "1"
arrow = { version = "*", default-features = false }
bitvec = "1"
chrono = "0.4"
clap = { version = "4", features = ["derive"] }
crc32fast = "1"
crossbeam-skiplist = "0.1"
dashmap = "6"
miette = "7"
ordered-float = "*"
postcard = { version = "1", features = ["use-std"] }
rustyline = "*"
serde = { version = "1", features = ["derive"] }
thiserror = "2"
uuid = { version = "1", features = ["v4"] }
