[package]
name = "graphql_pool"
version = "0.1.0"
edition = "2021"
publish = false

[dependencies]
juniper = { version = "=0.17.1", features = ["expose-test-schema"] }
actix = "=0.13.5"
actix-web = { version = "=4.15.0", default-features = false, features = ["macros"] }
serde = { version = "=1.0.229", features = ["derive"] }
serde_json = "=1.0.151"
futures = "=0.3.34"
