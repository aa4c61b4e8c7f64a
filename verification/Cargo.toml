[package]
name = "filesig"
version = "0.1.0"
edition = "2021"
publish = false

[dependencies]
bs58 = "0.5"
sodiumoxide = "0.2"
structopt = "0.3"
