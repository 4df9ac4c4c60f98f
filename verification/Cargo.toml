[package]
name = "kernel_boot"
version = "0.1.0"
edition = "2021"

[dependencies]
chrono = "*"
linked_list_allocator = "*"
log = "*"
multiboot2 = "*"
spin = "*"
uefi = "*"
uefi-raw = "*"
x86_64 = "*"
