[package]
name = "oximite"
version = "0.1.0"
edition = "2021"
publish = false

[dependencies]
cortex-m = "=0.7.10"
cyw43 = "=0.7.0"
cyw43-pio = "=0.10.0"
embassy-executor = "=0.10.0"
embassy-futures = "=0.1.2"
embassy-net = { version = "=0.9.1", features = ["tcp", "udp", "dhcpv4", "medium-ethernet", "proto-ipv4"] }
embassy-rp = { version = "=0.10.0", features = ["rp235xb", "time-driver", "executor-thread", "critical-section-impl"] }
embassy-sync = "=0.8.0"
embassy-time = "=0.5.1"
embedded-io-async = "=0.7.0"
fixed = "=1.31.0"
heapless = { version = "=0.8.0", features = ["serde"] }
pio = "=0.3.0"
postcard = { version = "=1.1.3", default-features = false }
sequential-storage = "=4.0.3"
serde = { version = "=1.0.229", default-features = false, features = ["derive"] }
serde-json-core = "=0.6.0"
static_cell = "=2.1.1"
