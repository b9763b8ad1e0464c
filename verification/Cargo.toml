[package]
name = "drcov_rt"
version = "0.1.0"
edition = "2021"
publish = false

[dependencies]
ahash = "*"
rangemap = "*"
libafl_targets = "0.8"
