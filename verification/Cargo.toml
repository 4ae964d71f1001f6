[package]
name = "bf_cranelift"
version = "0.1.0"
edition = "2021"
publish = false

[dependencies]
cranelift-codegen = "0.37.0"
cranelift-frontend = "0.37.0"
cranelift-module = "0.37.0"
cranelift-faerie = "0.37.0"
target-lexicon = "0.4.0"
