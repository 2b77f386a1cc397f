[package]
name = "quasar"
version = "0.1.0"
edition = "2021"
publish = false

[dependencies]
anyhow = "=1.0.104"
burn = { version = "=0.22.1", default-features = false, features = ["autodiff", "flex", "store"] }
clap = { version = "=4.6.7", features = ["derive"] }
cubecl = { version = "=0.11.3", default-features = false }
indicatif = "=0.18.6"
memmap2 = "=0.9.12"
rayon = "=1.12.0"
serde = { version = "=1.0.229", features = ["derive"] }
serde_json = "=1.0.154"
