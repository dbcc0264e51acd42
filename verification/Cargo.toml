[package]
name = "pnml"
version = "0.1.0"
edition = "2021"

[dependencies]
xml-rs = "0.8"
