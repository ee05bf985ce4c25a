[package]
name = "beanstalkd_rs"
version = "0.1.0"
edition = "2021"
publish = false

[dependencies]
smol = "2"
thiserror = "2"
