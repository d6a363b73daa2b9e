[package]
name = "slowloris"
version = "0.1.0"
edition = "2021"
publish = false

[dependencies]
futures = "0.1"
num_cpus = "1"
rand = "0.5"
smallvec = "0.6"
tokio = "0.1"
