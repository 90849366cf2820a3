[package]
name = "deilephila"
version = "0.1.0"
edition = "2021"
publish = false

[dependencies]
aes-gcm = "0.10"
argon2 = "0.5"
async-trait = "0.1"
cid = "0.11"
ed25519-dalek = "2"
futures = { version = "0.3", default-features = false, features = ["std"] }
getrandom = "0.3"
ipld-core = "0.4"
multihash-codetable = { version = "0.2", default-features = false, features = ["sha2"] }
serde = { version = "1", features = ["derive"] }
serde_bytes = "0.11"
serde_ipld_dagcbor = "0.6"
serde_json = "1"
thiserror = "2"
tokio = { version = "1", features = ["rt-multi-thread", "macros", "sync", "time"] }
tracing = "0.1"
tracing-subscriber = { version = "0.3", default-features = false, features = ["fmt"] }
libp2p = { version = "0.56", default-features = false, features = ["gossipsub", "identify", "kad", "macros", "mdns", "noise", "request-response", "tcp", "tokio", "yamux"] }
sqlx = { version = "0.8", default-features = false, features = ["runtime-tokio", "sqlite"] }
