[package]
name = "alarm_sync"
version = "0.1.0"
edition = "2021"
publish = false

[dependencies]
heapless = "=0.8.0"
embassy-time = "=0.4.0"
embassy-net = { version = "=0.7.1", features = ["tcp", "dhcpv4", "proto-ipv4", "medium-ethernet"] }
embassy-rp = { version = "=0.4.0", features = ["rp235xa", "time-driver", "_test"] }
embassy-executor = { version = "=0.7.0", features = ["arch-std", "executor-thread"] }
cyw43 = "=0.3.0"
cyw43-pio = "=0.4.0"
defmt = "=0.3.101"
static_cell = "=2.1.1"
embedded-io-async = "=0.6.1"
embedded-storage-async = "=0.4.2"
