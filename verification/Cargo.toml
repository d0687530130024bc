[package]
name = "kernel"
version = "0.1.0"
edition = "2021"
publish = false

[dependencies]
ascii = "*"
hashbrown = "*"
xhci = "*"
x86_64 = "*"
log = "*"
uefi = "*"
uefi-services = "*"
dyn-clone = "*"
