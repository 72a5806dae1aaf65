[package]
name = "option_pricing"
version = "0.1.0"
edition = "2021"
publish = false

[dependencies]
chrono = "0.4"
rand = "0.8"
rand_distr = "0.4"
statrs = "0.16"
