[package]
name = "emissions_engine"
version = "0.1.0"
edition = "2021"
publish = false

[dependencies]
serde_json = "1"
serde = "1"
serde_derive = "1"
candid = "*"
ic-cdk = "*"
icrc-ledger-types = "*"
lazy_static = "1"
