[package]
name = "graph"
version = "0.1.0"
edition = "2021"
publish = false

[dependencies]
anyhow = "=1.0.104"
aya = "=0.14.0"
aya-ebpf = "=0.2.1"
libc = "=0.2.191"
tokio = { version = "=1.54.1", features = ["macros", "rt", "rt-multi-thread", "net", "signal"] }

[dev-dependencies]
aya-build = "=0.2.0"
