[package]
name = "safety"
version = "0.1.0"
edition = "2021"

[dependencies]
proc-macro2 = "=1.0.107"
quote = "=1.0.47"
syn = { version = "=2.0.119", features = ["full", "visit-mut"] }

[dev-dependencies]
proc-macro2 = { version = "=1.0.107", features = ["span-locations"] }
