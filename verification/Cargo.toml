[package]
name = "iit_scoreboard"
version = "0.1.0"
edition = "2021"
publish = false

[dependencies]
chrono = "*"
clap = { version = "*", features = ["derive"] }
csv = "*"
html2text = "*"
rayon = "*"
reqwest = { version = "*", default-features = false }
rss = "*"
serde = { version = "*", features = ["derive"] }
tera = "*"
tokio = { version = "*", features = ["macros", "rt-multi-thread", "sync"] }
