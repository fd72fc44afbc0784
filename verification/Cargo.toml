[package]
name = "desktop_launcher"
version = "0.1.0"
edition = "2021"
publish = false

[dependencies]
clap = "2"
freedesktop_entry_parser = "1"
itertools = "0.10"
