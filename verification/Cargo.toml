[package]
name = "pollcast"
version = "0.1.0"
edition = "2021"
publish = false

[dependencies]
uuid = { version = "*", features = ["v4", "serde"] }
actix = "*"
actix-cors = "*"
actix-session = { version = "*", features = ["cookie-session"] }
actix-web = "*"
actix-ws = "*"
bytestring = "*"
chrono = "*"
dotenv = "*"
futures-util = "*"
log = "*"
native-tls = "*"
postgres-native-tls = "*"
serde = { version = "*", features = ["derive"] }
serde_json = "*"
thiserror = "*"
tokio = { version = "*", features = ["sync", "time", "rt-multi-thread", "macros"] }
tokio-postgres = { version = "*", features = ["with-uuid-1", "with-serde_json-1"] }
tracing = "*"
webauthn-rs = { version = "*", features = ["danger-allow-state-serialisation"] }
webauthn-rs-core = "*"
