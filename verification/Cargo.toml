[package]
name = "esp_hal_ota"
version = "0.1.0"
edition = "2021"
publish = false

[dependencies]
embedded-storage = "*"

[dev-dependencies]
crc32fast = "*"
