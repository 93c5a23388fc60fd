[package]
name = "vesper"
version = "0.1.0"
edition = "2021"
publish = false

[dependencies]
defmt = "*"
defmt-rtt = "*"
embassy-executor = "*"
embassy-futures = "*"
embassy-rp = { version = "*", features = ["rp235xb", "time-driver", "critical-section-impl", "binary-info"] }
embassy-sync = "*"
embassy-time = { version = "*", features = ["tick-hz-1_000_000"] }
embassy-usb = "*"
embedded-crc32c = "*"
embedded-hal = "1"
embedded-io-async = "*"
heapless = "*"
panic-probe = { version = "*", features = ["print-defmt"] }
postcard = "1"
serde = { version = "1", default-features = false, features = ["derive"] }
smart-leds = "*"
static_cell = "*"
usbd-hid = "*"
