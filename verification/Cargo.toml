[package]
name = "ptndle"
version = "0.1.0"
edition = "2021"
publish = false

[dependencies]
owo-colors = "4"
eyre = "0.6"
facet = "*"
facet-json = "*"
getrandom = "0.2"
dirs = "*"
reedline = "*"
ureq = "3"
xflags = "0.3"
