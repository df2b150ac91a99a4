[package]
name = "test_r_core"
version = "0.1.0"
edition = "2021"
publish = false

[dependencies]
anstream = "=1.0.0"
anstyle = "=1.0.14"
anyhow = "=1.0.104"
clap = { version = "=4.6.7", features = ["derive"] }
ctrf-rs = "=0.1.0"
desert_rust = "=0.1.11"
escape8259 = "=0.5.4"
futures = "=0.3.34"
interprocess = "=2.4.7"
libc = "=0.2.191"
parking_lot = { version = "=0.12.5", features = ["arc_lock", "send_guard"] }
quick-xml = "=0.42.0"
rand = "=0.10.3"
serde_json = "=1.0.154"
tokio = { version = "=1.54.1", features = ["full"] }
topological-sort = "=0.3.1"
uuid = { version = "=1.29.0", features = ["v4"] }
