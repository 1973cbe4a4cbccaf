[package]
name = "knapsack_ga"
version = "0.1.0"
edition = "2021"
publish = false

[dependencies]
rand = "0.8"
rand_pcg = "0.3"
csv = "1"
plotters = "0.3"
linfa = "0.7"
linfa-linear = "0.7"
ndarray = "0.15"
