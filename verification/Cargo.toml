[package]
name = "ccpm_build"
version = "0.1.0"
edition = "2021"
publish = false

[dependencies]
spdx = "*"
sha2 = "*"
hex = "*"
deflate = "*"
inflate = "*"
base64 = "*"
clap = { version = "4", features = ["derive"] }
clap_derive = "4"
console = "*"
anyhow = "*"
thiserror = "*"
regex = "*"
darklua = "*"
