[package]
name = "pipad"
version = "0.1.0"
edition = "2021"
publish = false

[dependencies]
keyberon = "=0.1.1"
embassy-stm32 = { version = "=0.6.0", features = ["stm32f411ce"] }
embassy-executor = { version = "=0.9.1", features = ["arch-std", "executor-thread"] }
defmt = "=1.2.0"
defmt-rtt = "=1.3.1"
panic-probe = { version = "=1.0.0", features = ["print-defmt"] }
