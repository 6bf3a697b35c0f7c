[package]
name = "ziplog"
version = "0.1.0"
edition = "2021"
publish = false

[dependencies]
chrono = "0.4"
structopt = "0.3"
grep-cli = "0.1"
termcolor = "1"
