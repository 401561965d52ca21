[package]
name = "expr_parser"
version = "0.1.0"
edition = "2021"
publish = false

[dependencies]
smallvec = "=1.16.4"
bumpalo = "=3.20.3"
target-lexicon = "=0.12.16"
