[package]
name = "stippling"
version = "0.1.0"
edition = "2021"
publish = false

[dependencies]
rand = "0.9"
spade = "2"
image = { version = "0.25", default-features = false, features = ["jpeg", "png"] }
macroquad = "0.4"
d3_delaunay_rs = "*"
geo-types = "0.7"
