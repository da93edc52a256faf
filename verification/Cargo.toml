[package]
name = "chart_buckets"
version = "0.1.0"
edition = "2021"
publish = false

[dependencies]
curl = "*"
serde_json = "*"
thiserror = "*"
