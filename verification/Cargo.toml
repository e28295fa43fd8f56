[package]
name = "rune_typechecker"
version = "0.1.0"
edition = "2021"
publish = false

[dependencies]
rune = "0.14.2"
thiserror = "2"
