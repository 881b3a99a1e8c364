[package]
name = "chainx_core"
version = "0.1.0"
edition = "2021"
publish = false

[dependencies]
parity-codec = "3.5.4"
structopt = "0.3.26"
