[package]
name = "sponsorblock_mirror"
version = "0.1.0"
edition = "2021"
publish = false

[dependencies]
regex = "1"
serde = { version = "1", features = ["derive"] }
serde_json = "1"
rocket = "0.5"
rocket_sync_db_pools = { version = "0.1", features = ["diesel_postgres_pool"] }
diesel = { version = "2", features = ["postgres"] }
diesel_migrations = "2"
reqwest = "0.11"
tokio = { version = "1", features = ["rt-multi-thread", "time", "io-util"] }
