[package]
name = "finalyst"
version = "0.1.0"
edition = "2021"
publish = false

[dependencies]
feed-rs = "=2.4.0"
time = { version = "=0.3.55", features = ["macros", "formatting", "parsing"] }
clap = { version = "=4.6.7", features = ["derive"] }
tokio = { version = "=1.54.1", features = ["full"] }
tracing = "=0.1.44"
tracing-subscriber = { version = "=0.3.23", features = ["env-filter"] }
tracing-indicatif = "=0.3.14"
indicatif = "=0.18.6"
futures = "=0.3.34"
reqwest = "=0.13.5"
redb = "=4.4.0"
rig-core = "=0.40.0"
serde = { version = "=1.0.229", features = ["derive"] }
serde_json = "=1.0.154"
yahoo_finance_api = "=5.0.0"
yata = "=0.7.0"
