[package]
name = "sweep"
version = "0.1.0"
edition = "2021"
publish = false

[dependencies]
shlex = "=1.3.0"
smallvec = "=1.16.4"
argh = "=0.1.19"
serde_json = "=1.0.154"
globset = "0.4"
