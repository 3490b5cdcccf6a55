[package]
name = "pw_kernel_image"
version = "0.1.0"
edition = "2021"
publish = false

[dependencies]
anyhow = "=1.0.104"
clap = { version = "=4.6.7", features = ["derive"] }
object = { version = "=0.36.7", default-features = false, features = ["build", "std"] }
