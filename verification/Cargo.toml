[package]
name = "larkspur"
version = "0.1.0"
edition = "2021"
publish = false

[dependencies]
anyhow = "*"
aya = "*"
blazesym = "*"
clap = { version = "*", features = ["derive"] }
env_logger = "*"
goblin = "*"
hex = "*"
log = "*"
proc-maps = "*"
tokio = { version = "*", features = ["macros", "rt-multi-thread", "time"] }
