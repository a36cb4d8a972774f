[package]
name = "osu-pipeline"
version = "0.1.0"
edition = "2021"
publish = false

[dependencies]
anyhow = "=1.0.104"
arrow = { version = "=60.1.0", default-features = false }
parquet = { version = "=60.1.0", default-features = false, features = ["arrow", "snap"] }
clap = { version = "=4.6.7", features = ["derive"] }
infer = "=0.22.0"
rand = "=0.9.5"
rayon = "=1.12.0"
rosu-map = "=0.2.1"
rosu-storyboard = "=0.1.1"
rosu-pp = "=4.0.1"
walkdir = "=2.5.0"
zip = { version = "=9.2.2", default-features = false, features = ["deflate"] }
ctrlc = "3"
indicatif = "*"
reqwest = { version = "0.12", default-features = false, features = ["blocking", "rustls-tls"] }
tokio = { version = "1", features = ["macros", "rt-multi-thread"] }
rosu-v2 = "*"
governor = "*"
