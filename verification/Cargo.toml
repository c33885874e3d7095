[package]
name = "depot"
version = "0.1.0"
edition = "2021"
publish = false

[dependencies]
anyhow = "*"
async-trait = "*"
clap = { version = "*", features = ["derive"] }
futures = "*"
home = "*"
indicatif = "*"
log = "*"
pathsearch = "*"
reqwest = { version = "*", default-features = false, features = ["stream"] }
serde = { version = "*", features = ["derive"] }
serde_json = "*"
shlex = "*"
tokio = { version = "*", features = ["macros", "process", "rt-multi-thread", "sync", "fs", "io-util", "signal"] }
