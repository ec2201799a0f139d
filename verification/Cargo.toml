[package]
name = "rusty"
version = "0.1.0"
edition = "2021"
publish = false

[dependencies]
heapless = "=0.8.0"
embedded-hal = "=0.2.7"
nb = "=0.1.3"
log = "=0.4.34"
bare-metal = "=0.2.5"
cortex-m = "=0.6.7"
cortex-m-rtfm = "0.5"
stm32f4xx-hal = { version = "0.8", features = ["stm32f407", "rt"] }
