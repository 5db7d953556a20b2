[package]
name = "parachain_staking"
version = "0.1.0"
edition = "2021"
publish = false

[dependencies]
sp-arithmetic = "*"
parity-scale-codec = { version = "*", features = ["derive", "max-encoded-len"] }
scale-info = { version = "*", features = ["derive"] }
