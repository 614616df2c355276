[package]
name = "dnsdisc"
version = "0.1.0"
edition = "2021"
publish = false

[dependencies]
anyhow = "1"
async-trait = "0.1"
data-encoding = "2"
enr = "*"
k256 = "*"
sha3 = "0.10"
task-group = "*"
tokio = { version = "1", features = ["rt", "rt-multi-thread", "sync", "macros"] }
trust-dns-resolver = "*"
