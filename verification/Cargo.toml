[package]
name = "sql_migration"
version = "0.1.0"
edition = "2021"
publish = false

[dependencies]
url = "2"
postgres = "0.19"
serde_json = "1"
