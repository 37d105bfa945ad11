[package]
name = "lc3_asm_vm"
version = "0.1.0"
edition = "2021"
publish = false

[dependencies]
console = "0.15"
