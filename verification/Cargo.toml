[package]
name = "red_alert"
version = "0.1.0"
edition = "2021"
publish = false

[dependencies]
async-trait = "0.1"
bimap = "0.6"
chrono = "0.4"
config = "0.13"
fluent = "0.16"
fon = "0.6"
intl-memoizer = "0.5"
log = "0.4"
log4rs = "1"
ngrammatic = "0.4"
serde = { version = "1", features = ["derive"] }
serde_yaml = "0.9"
serenity = "0.11"
songbird = "0.3"
tokio = { version = "1", features = ["rt-multi-thread", "macros", "sync", "time"] }
unic-langid = "0.9"
uuid = { version = "1", features = ["v4"] }
