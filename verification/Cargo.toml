[package]
name = "aspen_rust"
version = "0.1.0"
edition = "2021"
publish = false

[dependencies]
rand = "0.9"
rand_distr = "0.5"
hdrhistogram = { version = "7", default-features = false }
smol = "2"
async-channel = "2"
async-executor = "1"
easy-parallel = "3"
futures-lite = "2"
chrono = "0.4"
csv = "1"
num_cpus = "1"
thiserror = "2"
