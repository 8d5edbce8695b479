[package]
name = "repisode"
version = "0.1.0"
edition = "2021"
publish = false

[dependencies]
regex = "1"
clap = "4"
glob = "0.3"
itertools = "0.10"
