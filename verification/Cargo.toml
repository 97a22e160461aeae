[package]
name = "builder_pattern_fsm"
version = "0.1.0"
edition = "2021"
publish = false

[dependencies]
proc-macro2 = "1"
quote = "1"
syn = "2"
uuid = { version = "1", features = ["v4"] }
