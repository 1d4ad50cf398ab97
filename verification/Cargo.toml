[package]
name = "backup_diff"
version = "0.1.0"
edition = "2021"
publish = false

[dependencies]
multimap = "*"
sha2 = "*"
walkdir = "*"
clap = "*"
