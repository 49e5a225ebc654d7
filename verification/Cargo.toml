[package]
name = "note_index"
version = "0.1.0"
edition = "2021"
publish = false

[dependencies]
notify = "*"
tokio = { version = "*", features = ["rt-multi-thread", "macros", "sync", "time", "fs"] }
ollama-rs = "*"
qdrant-client = "*"
