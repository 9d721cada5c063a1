[package]
name = "spritec"
version = "0.1.0"
edition = "2021"
publish = false

[dependencies]
image = { version = "0.23", default-features = false, features = ["png"] }
gltf = { version = "0.15", features = ["KHR_lights_punctual"] }
vek = "*"
thiserror = "1"
interpolation = "0.2"
rayon = "1"
tobj = "*"
euc = "*"
glium = "0.26"
