[package]
name = "neighdns"
version = "0.1.0"
edition = "2021"
publish = false

[dependencies]
time = "*"
clap = { version = "*", features = ["derive"] }
futures = "*"
tokio = { version = "*", features = ["rt-multi-thread", "macros"] }
rtnetlink = "*"
netlink-packet-core = "*"
netlink-packet-route = "*"
netlink-sys = "*"
rusqlite = { version = "*", features = ["bundled", "time"] }
serde_json = "*"
ubus = "*"

[dev-dependencies]
hickory-proto = { version = "*", default-features = false }
