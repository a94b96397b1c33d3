[package]
name = "libaether"
version = "0.1.0"
edition = "2021"
publish = false

[dependencies]
dirs = "*"
fs_extra = "*"
mtree = "*"
scan_dir = "*"
