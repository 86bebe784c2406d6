[package]
name = "pcap_splitter"
version = "0.1.0"
edition = "2021"
publish = false

[dependencies]
clap = "2"
pcap = "*"
tokio = { version = "1", features = ["fs", "io-util", "macros", "rt-multi-thread"] }
