[package]
name = "riscv_um"
version = "0.1.0"
edition = "2021"
publish = false

[dependencies]
elf = "0.7"
clap = { version = "4", features = ["derive"] }
colored = "2"
libc = "0.2"
