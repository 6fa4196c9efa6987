[package]
name = "kageb"
version = "0.1.0"
edition = "2021"
publish = false

[dependencies]
base64 = "=0.22.1"
bincode = "=1.3.3"
bs58 = "=0.5.1"
ed25519-dalek = "=2.2.0"
getrandom = "=0.2.17"
libc = "=0.2.191"
rand = "=0.7.3"
rand_chacha = "=0.2.2"
serde = { version = "=1.0.229", features = ["derive"] }
serde_json = "=1.0.154"
sha2 = "=0.10.9"
solana-commitment-config = "=3.1.1"
solana-ed25519-program = "=3.0.0"
solana-keypair = "=3.1.2"
solana-loader-v3-interface = { version = "=6.1.1", features = ["serde", "bincode"] }
solana-message = "=3.1.0"
solana-program = "=3.0.0"
solana-signature = "=3.6.0"
solana-signer = "=3.0.1"
solana-system-interface = { version = "=2.0.0", features = ["bincode"] }
solana-transaction = { version = "=3.1.0", features = ["bincode", "verify"] }
solana-transaction-status-client-types = "=3.1.14"
spl-token-interface = "=2.0.0"
tempfile = "=3.27.0"
threshold_crypto = "=0.4.0"
zeroize = "=1.9.1"
