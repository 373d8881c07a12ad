[package]
name = "opengyro"
version = "0.1.0"
edition = "2021"
publish = false

[dependencies]
feather_m4 = { version = "=0.18.4", features = ["usb", "dma"] }
cortex-m = "=0.7.10"
embedded-hal = "=0.2.7"
fugit = "=0.3.9"
nb = "=1.1.0"
usb-device = "=0.3.2"
usbd-serial = "=0.2.2"
ufmt = "=0.2.0"
ufmt_float = "=0.2.0"
panic-halt = "=0.2.0"
icm20948 = "=0.0.1"
icm20948_driver = "=0.2.0"
ahrs = "=0.8.0"
nalgebra = "=0.34.2"
pid = "=4.0.0"
