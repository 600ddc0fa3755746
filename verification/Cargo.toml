[package]
name = "mc_connect"
version = "0.1.0"
edition = "2021"
publish = false

[dependencies]
anyhow = "=1.0.104"
jni = { version = "=0.22.4", features = ["invocation"] }
sysinfo = "=0.39.6"
tokio = { version = "=1.53.2", features = ["full"] }
