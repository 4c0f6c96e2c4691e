[package]
name = "rsedis"
version = "0.1.0"
edition = "2021"
publish = false

[dependencies]
net2 = "0.2"
syslog = "3"
