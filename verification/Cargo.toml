[package]
name = "bittwiddler"
version = "0.1.0"
edition = "2021"
publish = false

[dependencies]
unicode-ident = "*"
itertools = "*"
calamine = "*"
proc-macro2 = "*"
quote = "*"
syn = { version = "*", features = ["full"] }
