[package]
name = "gte_services"
version = "0.3.6"
edition = "2021"
publish = false

[dependencies]
chrono = "0.4"
dirs = "*"
tracing = "0.1"
ureq = "3"
