[package]
name = "cpio_archive"
version = "0.1.0"
edition = "2021"
publish = false

[dependencies]
argh = "0.1"
libc = "0.2"
size = "0.4"
thiserror = "1.0"
