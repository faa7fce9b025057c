[package]
name = "tft_lcd"
version = "0.1.0"
edition = "2021"
publish = false

[dependencies]
as-what = "=0.1.1"
num_enum = { version = "=0.7.6", default-features = false }
embassy-stm32 = { version = "=0.6.0", features = ["stm32f103c8", "time-driver-tim3", "unstable-pac"] }
embassy-time = "=0.5.1"
embassy-executor = { version = "=0.9.1", features = ["arch-std", "executor-thread"] }
defmt = "=1.2.0"
defmt-rtt = "=1.3.1"
panic-probe = "=1.0.0"
