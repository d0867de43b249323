[package]
name = "keyboard"
version = "0.1.0"
edition = "2021"
publish = false

[dependencies]
heapless = "=0.7.17"
fugit = "=0.3.9"
embedded-hal = "=0.2.7"
usb-device = "=0.2.9"
usbd-human-interface-device = "=0.4.5"
port-expander = "=0.3.1"
shared-bus = "=0.2.5"
switch-hal = "=0.4.0"
cortex-m = "=0.7.10"
cortex-m-rt = "=0.7.7"
defmt = "=0.3.101"
defmt-rtt = "=0.4.2"
panic-probe = { version = "=0.3.2", features = ["print-defmt"] }
seeeduino-xiao-rp2040 = "=0.4.0"
