[package]
name = "mandelbrot"
version = "0.1.0"
edition = "2021"
publish = false

[dependencies]
anyhow = "1"
image = "0.22"
itertools = "0.10"
num = "0.4"
num-traits = "0.2"
rayon = "1"
structopt = "0.3"
thiserror = "1"
time = "0.1"
