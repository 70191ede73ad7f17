[package]
name = "early_alloc"
version = "0.1.0"
edition = "2021"
publish = false

[dependencies]
axallocator = "*"
log = "=0.4.34"
chrono = "=0.4.45"
kspin = "=0.2.0"
crate_interface = "=0.3.0"
cfg-if = "=1.0.5"
