[package]
name = "script_frontend"
version = "0.1.0"
edition = "2021"
publish = false

[dependencies]
env_logger = "*"
logos = "*"
owo-colors = "*"
rustyline = "*"
strum_macros = "*"
thiserror = "*"
