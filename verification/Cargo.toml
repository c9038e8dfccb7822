[package]
name = "compact_str"
version = "0.1.0"
edition = "2021"
publish = false

[dependencies]
proptest = "=1.12.0"
quickcheck = "=1.1.0"
crabcheck = "=0.2.0"
hegeltest = "=0.3.7"
