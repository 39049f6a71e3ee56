[package]
name = "fip_voting"
version = "0.1.0"
edition = "2021"
publish = false

[dependencies]
actix-cors = "0.6"
actix-web = { version = "4", default-features = false, features = ["macros", "rustls"] }
base32 = "0.4"
bls-signatures = { version = "0.15", default-features = false, features = ["pairing"] }
clap = { version = "4", default-features = false, features = ["derive", "std", "help", "usage", "error-context"] }
ethers = { version = "2", default-features = false }
hex = "0.4"
jsonrpc = { version = "0.14", default-features = false }
redis = { version = "0.23", default-features = false }
regex = "1"
reqwest = { version = "0.11", default-features = false, features = ["json", "rustls-tls"] }
rustls = "0.20"
rustls-pemfile = "1"
serde = { version = "1", features = ["derive"] }
serde_json = "1"
thiserror = "1"
url = "2"
