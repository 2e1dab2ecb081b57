[package]
name = "crcns_lens"
version = "0.1.0"
edition = "2021"
publish = false

[dependencies]
bincode = "=2.0.1"
chrono = "=0.4.45"
futures-util = "=0.3.34"
memmap2 = "0.9"
ndarray = "0.16"
reqwest = { version = "=0.12.28", features = ["stream"] }
sxd_html = "=0.1.2"
sxd-xpath = "=0.4.2"
tokio = { version = "=1.54.1", features = ["full"] }
url = "=2.5.8"
