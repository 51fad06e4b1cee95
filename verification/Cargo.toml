[package]
name = "mssh"
version = "0.1.0"
edition = "2021"
publish = false

[dependencies]
anyhow = "1"
async-sse = "5"
bytes = "1"
chrono = "0.4"
dhat = "0.3"
futures-lite = "2"
isahc = { version = "1", features = ["json"] }
log = "0.4"
mail-builder = "0.4"
mail-parser = "0.11"
nix = { version = "0.28", features = ["term"] }
portable-pty = "0.9"
rand = "0.9"
sequoia-openpgp = { version = "2", default-features = false, features = ["crypto-rust", "allow-experimental-crypto", "allow-variable-time-crypto"] }
serde = { version = "1", features = ["derive"] }
serde_json = "1"
tokio = { version = "1", features = ["full"] }
toml = "0.8"
tracing-subscriber = { version = "0.3", features = ["env-filter"] }
uuid = { version = "1", features = ["v4"] }
