[package]
name = "commust"
version = "0.1.0"
edition = "2021"
publish = false

[dependencies]
sha2 = "=0.10.9"
slug = "=0.1.6"
uuid = { version = "=1.29.0", features = ["v4"] }
serde = { version = "=1.0.229", features = ["derive"] }
serde_json = "=1.0.154"
async-trait = "=0.1.92"
tracing = "=0.1.44"
axum = { version = "=0.8.9", features = ["macros"] }
axum-extra = { version = "=0.10.3", features = ["cookie", "form"] }
axum_session = { version = "=0.16.0", default-features = false }
sea-orm = { version = "=1.1.20", default-features = false, features = ["macros"] }
sea-orm-migration = { version = "=1.1.20", default-features = false }
