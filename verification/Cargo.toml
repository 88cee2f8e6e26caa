[package]
name = "grindlang"
version = "0.1.0"
edition = "2021"
publish = false

[dependencies]
cranelift-codegen = "=0.130.2"
cranelift-frontend = "=0.130.2"
cranelift-jit = "=0.130.2"
cranelift-module = "=0.130.2"
cranelift-native = "=0.130.2"
serde = { version = "=1.0.229", features = ["derive"] }
serde_json = "=1.0.154"
thiserror = "=2.0.21"
