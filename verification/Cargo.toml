[package]
name = "mi-plaits-dsp"
version = "0.1.0"
edition = "2021"
publish = false

[dependencies]
dyn-clone = "1"
num-traits = "0.2"
