[package]
name = "mustcc"
version = "0.1.0"
edition = "2021"
publish = false

[dependencies]
ariadne = "=0.6.0"
clap = { version = "=4.6.7", features = ["derive"] }
colored = "=3.1.1"
cranelift-codegen = "=0.134.4"
cranelift-frontend = "=0.134.4"
cranelift-module = "=0.134.4"
cranelift-object = "=0.134.4"
lalrpop-util = "*"
