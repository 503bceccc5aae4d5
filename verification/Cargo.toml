[package]
name = "mail_headers"
version = "0.1.0"
edition = "2021"
publish = false

[dependencies]
chrono = "0.4"
soft-ascii-string = "*"
