[package]
name = "tlv"
version = "0.1.0"
edition = "2021"
publish = false

[dependencies]
bytes = "=1.12.1"
thiserror = "=1.0.69"
syn = { version = "=2.0.119", features = ["full", "extra-traits"] }
quote = "=1.0.47"
proc-macro2 = "=1.0.107"
attribute-derive = "0.10"
proc-macro-error = "=1.0.4"
