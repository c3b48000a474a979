[package]
name = "game2048"
version = "0.1.0"
edition = "2021"
publish = false

[dependencies]
bellpepper-core = "=0.4.0"
ff = "=0.13.1"
nova-snark = "=0.76.0"
num-bigint = "=0.5.1"
num-integer = "=0.1.47"
