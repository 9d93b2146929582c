[package]
name = "vmsh"
version = "0.1.0"
edition = "2021"
publish = false

[dependencies]
libc = "=0.2.190"
nix = { version = "=0.31.3", features = ["ptrace", "signal", "process", "uio"] }
kvm-bindings = "=0.14.1"
