[package]
name = "plank"
version = "0.1.0"
edition = "2021"
publish = false

[dependencies]
clap = "2"
serde_json = "1"
swc_atoms = "*"
swc_common = "*"
swc_ecma_ast = "*"
swc_ecma_parser = "*"
