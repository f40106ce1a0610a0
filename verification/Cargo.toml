[package]
name = "backup_manager"
version = "0.1.0"
edition = "2021"
publish = false

[dependencies]
regex = "*"
async-std = "*"
clap = "*"
