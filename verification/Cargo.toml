[package]
name = "ehframe_bpf_compiler"
version = "0.1.0"
edition = "2021"
publish = false

[dependencies]
anyhow = "1"
gimli = "*"
memmap = "0.7"
object = "*"
