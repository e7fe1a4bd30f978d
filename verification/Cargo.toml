[package]
name = "barnes_hut"
version = "0.1.0"
edition = "2021"
publish = false

[dependencies]
fastrand = "*"
rand = "=0.10.3"
rand_distr = "*"
hsv = "*"
log = "*"
env_logger = "*"
error-iter = "*"
image = "*"
