[package]
name = "mit_commit"
version = "0.1.0"
edition = "2021"
publish = false

[dependencies]
regex = "1"
thiserror = "2"
miette = "7"
