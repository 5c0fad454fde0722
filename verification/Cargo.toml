[package]
name = "aws_ssm_parameter_cache"
version = "0.1.0"
edition = "2021"
publish = false

[dependencies]
lru = "*"
aws-sdk-ssm = { version = "*", default-features = false }
aws-sdk-config = { version = "*", default-features = false }
