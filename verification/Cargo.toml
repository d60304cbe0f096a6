[package]
name = "osint_core"
version = "0.1.0"
edition = "2021"
publish = false

[dependencies]
uuid = { version = "*", features = ["v4", "serde"] }
chrono = { version = "*", features = ["serde"] }
num_cpus = "*"
geo = "*"
geojson = "*"
serde = { version = "*", features = ["derive"] }
serde_json = "*"
thiserror = "*"
regex = "*"
async-trait = "*"
tokio = { version = "*", features = ["rt-multi-thread", "macros", "sync", "time"] }
reqwest = { version = "*", default-features = false }
rayon = "*"
clap = { version = "*", features = ["derive"] }
tracing = "*"
tracing-subscriber = { version = "*", features = ["env-filter"] }
