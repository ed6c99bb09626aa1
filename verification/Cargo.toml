[package]
name = "estros"
version = "0.1.0"
edition = "2021"
publish = false

[dependencies]
aarch64-paging = "=0.11.0"
aarch64-cpu = "=11.2.0"
elf = { version = "=0.8.0", default-features = false }
anyhow = { version = "=1.0.104", default-features = false }
thiserror = { version = "=2.0.21", default-features = false }
limine = "=0.5.0"
qemu-exit = "=4.0.0"
