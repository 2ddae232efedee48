[package]
name = "srf05-imu-station"
version = "0.1.0"
edition = "2021"
publish = false

[dependencies]
critical-section = "1"
defmt = "*"
defmt-serial = "*"
embedded-hal = "1"
embedded-io = "*"
embedded-storage-async = "*"
panic-persist = "*"
rp2040-boot2 = "*"
rp2040-flash = "*"
rp2040-hal = "*"
rtic = { version = "2", features = ["thumbv6-backend"] }
rtic-monotonics = { version = "2", features = ["rp2040"] }
sequential-storage = "*"
static_cell = "*"
usb-device = "*"
usbd-serial = "*"
