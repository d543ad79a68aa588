[package]
name = "layout21_gds"
version = "0.1.0"
edition = "2021"
publish = false

[dependencies]
gds21 = "*"
slotmap = "1"
