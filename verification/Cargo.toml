[package]
name = "docs_to_pdf"
version = "0.1.0"
edition = "2021"
publish = false

[dependencies]
url = "*"
chromiumoxide = { version = "*", default-features = false, features = ["async-std-runtime"] }
async-std = { version = "*", features = ["attributes"] }
futures = "*"
clap = { version = "*", features = ["derive"] }
