[package]
name = "uclid"
version = "0.1.0"
edition = "2021"
publish = false

[dependencies]
smallvec = "1"
vst = "0.2"
webbrowser = "0.5"
ws = "0.9"
