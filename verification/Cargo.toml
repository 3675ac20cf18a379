[package]
name = "pitchfork"
version = "0.1.0"
edition = "2021"
publish = false

[dependencies]
z3 = "=0.7.1"
llvm-ir = { version = "=0.9.0", features = ["llvm-14"] }
llvm-sys = { version = "=140.1.3", features = ["force-dynamic"] }
env_logger = "=0.10.2"
