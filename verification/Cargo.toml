[package]
name = "grape_vector_db"
version = "0.1.0"
edition = "2021"
publish = false

[dependencies]
uuid = { version = "1", features = ["v4"] }
sha2 = "0.10"
hex = "0.4"
fastrand = "2"
rand = "0.8"
chrono = "0.4"
serde = { version = "1", features = ["derive"] }
serde_json = "1"
bincode = "1"
tokio = { version = "1", features = ["rt-multi-thread", "sync", "time", "macros"] }
parking_lot = "0.12"
thiserror = "1"
tracing = "0.1"
num_cpus = "1"
async-trait = "0.1"
instant-distance = "*"
rstar = "*"
geo = "*"
sqlparser = "*"
atomic_float = "*"
reqwest = { version = "0.12", default-features = false, features = ["json"] }
