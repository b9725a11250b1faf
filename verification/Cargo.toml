[package]
name = "oscd"
version = "0.1.0"
edition = "2021"
publish = false

[dependencies]
rosc = "*"
clap = "*"
colored = "*"
inquire = "*"
rustyline = "*"
rustyline-derive = "*"
tabled = "*"
termion = "*"
