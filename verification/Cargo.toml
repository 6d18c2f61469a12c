[package]
name = "terminal_renderer"
version = "0.3.0"
edition = "2021"
publish = false

[dependencies]
clap = "4"
crossterm = "0.28"
fontdue = "0.9"
glam = "0.29"
image = { version = "0.25", default-features = false, features = ["png", "jpeg"] }
lazy_static = "1"
log = "0.4"
minifb = "0.27"
nalgebra = "0.33"
rayon = "1"
simplelog = "0.12"
tobj = "4"
