[package]
name = "offline_memory"
version = "0.1.0"
edition = "2021"
publish = false

[dependencies]
p3-baby-bear = "*"
p3-field = "*"
rrs-lib = "*"
num-bigint-dig = "*"

[dev-dependencies]
rand = "*"
