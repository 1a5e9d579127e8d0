[package]
name = "makovi"
version = "0.1.0"
edition = "2021"
publish = false

[dependencies]
smallvec = "=1.16.5"
arrayvec = "=0.7.8"
cranelift = "=0.133.3"
cranelift-jit = "=0.133.3"
cranelift-module = "=0.133.3"
cranelift-native = "=0.133.3"
logos = "=0.16.1"
