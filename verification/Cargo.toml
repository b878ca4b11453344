[package]
name = "cat_query"
version = "0.1.0"
edition = "2021"
publish = false

[dependencies]
serde_json = "=1.0.154"
tantivy = "0.27.0"
atomicwrites = "=0.2.5"
fs2 = "=0.4.3"
