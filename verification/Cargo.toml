[package]
name = "margium"
version = "0.1.0"
edition = "2021"
publish = false

[dependencies]
lopdf = "=0.46.0"
uuid = "=1.29.0"
async-channel = "=2.5.0"
gtk4 = "*"
glib = "*"
cairo-rs = "*"
pango = "*"
poppler-rs = "*"
librsvg = "*"
mathjax_svg = "*"
