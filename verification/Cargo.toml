[package]
name = "mysql_async_orm"
version = "0.1.0"
edition = "2021"
publish = false

[dependencies]
mysql_async = { version = "*", default-features = false, features = ["minimal"] }
tokio = { version = "*", features = ["rt-multi-thread", "macros"] }
