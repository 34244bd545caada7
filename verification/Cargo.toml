[package]
name = "mnist_trainer"
version = "0.1.0"
edition = "2021"
publish = false

[dependencies]
rand = "=0.10.3"
mnist = "=0.6.0"
clap = "=4.6.7"
