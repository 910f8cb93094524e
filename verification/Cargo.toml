[package]
name = "pica_record"
version = "0.1.0"
edition = "2021"
publish = false

[dependencies]
bstr = "1"
regex = "1"
strsim = "0.11"
sha2 = "0.10"
flate2 = "1"
thiserror = "2"
serde = { version = "1", features = ["derive"] }
