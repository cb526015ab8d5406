[package]
name = "rag_engine"
version = "0.1.0"
edition = "2021"
publish = false

[dependencies]
uuid = { version = "1", features = ["v4", "serde"] }
chrono = { version = "0.4", features = ["serde"] }
scraper = "*"
html2md = "*"
anyhow = "1"
thiserror = "1"
serde = { version = "1", features = ["derive"] }
serde_json = "1"
log = "0.4"
tokio = { version = "1", features = ["full"] }
futures = "0.3"
actix = "0.13"
actix-web = "4"
actix-cors = "0.7"
diesel = { version = "2", features = ["postgres", "uuid", "chrono", "r2d2"] }
pgvector = { version = "0.4", features = ["diesel"] }
reqwest = { version = "0.12", features = ["json"] }
dotenv = "0.15"
qdrant-client = "*"
ollama-rs = "0.2.0"
rayon = "1"
