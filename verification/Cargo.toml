[package]
name = "arlian_perimeter"
version = "8.2.0"
edition = "2021"
publish = false

[dependencies]
chrono = "0.4"
colored = "2"
dashmap = "6"
ipnet = "2"
pcap = "2"
rand = "0.8"
rusqlite = "0.31"
serde = { version = "1", features = ["derive"] }
serde_json = "1"
sha2 = "0.10"
tokio = { version = "1", features = ["macros", "net", "process", "rt-multi-thread", "signal", "sync", "time"] }
