[package]
name = "strict_types"
version = "0.1.0"
edition = "2021"
publish = false

[dependencies]
amplify = "4"
baid58 = "0.4"
base64 = "0.21"
indexmap = "2"
sha2 = "0.10"
strict_encoding = "2.6"
