[package]
name = "haruhi_macro"
version = "0.1.0"
edition = "2021"
publish = false

[dependencies]
proc-macro-error = "=1.0.4"
proc-macro2 = "=1.0.56"
regex = "=1.13.1"
syn = "=1.0.109"
