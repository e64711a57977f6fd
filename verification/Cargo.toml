[package]
name = "recent_listing"
version = "0.1.0"
edition = "2021"
publish = false

[dependencies]
anyhow = "=1.0.104"
atty = "=0.2.14"
chrono = "=0.4.45"
clap = { version = "=4.6.7", features = ["derive"] }
clio = { version = "=0.3.5", features = ["clap-parse"] }
expanduser = "=1.2.2"
humantime = "=2.4.0"
pager = "=0.16.1"
terminal_size = "=0.4.4"
timediff = "=0.2.3"
unicode-segmentation = "=1.13.3"
