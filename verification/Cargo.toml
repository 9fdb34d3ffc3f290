[package]
name = "mta_queue"
version = "0.1.0"
edition = "2021"
publish = false

[dependencies]
mail-parser = "=0.11.9"
smtp-proto = "=0.2.5"
serde = { version = "=1.0.229", features = ["derive"] }
serde_json = "=1.0.154"
hyper = "=1.12.0"
mail-auth = { version = "=0.13.3", default-features = false, features = ["rust-crypto", "dns-hickory", "report"] }
compact_str = "=0.10.0"
