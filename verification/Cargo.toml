[package]
name = "rag_engine"
version = "0.1.0"
edition = "2021"
publish = false

[dependencies]
actix-web = "=4.18.1"
dotenvy = "=0.15.7"
ndarray = "=0.16.1"
openai_dive = "=1.4.3"
ort = { version = "=2.0.0-rc.10", default-features = false, features = ["std", "ndarray", "load-dynamic"] }
pdfsink-rs = "=0.1.0"
reqwest = { version = "=0.12.28", features = ["json"] }
serde = { version = "=1.0.229", features = ["derive"] }
text-splitter = "=0.33.1"
tokenizers = { version = "=0.22.2", default-features = false, features = ["fancy-regex"] }
tokio = { version = "=1.54.1", features = ["macros", "rt-multi-thread"] }
