[package]
name = "transcriber"
version = "0.1.0"
edition = "2021"
publish = false

[dependencies]
rustfft = "*"
hound = "*"
plotters = "*"
pitch-detection = "*"
pyin = "*"
cqt-rs = "*"
ndarray = "*"
