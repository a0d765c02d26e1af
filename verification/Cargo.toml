[package]
name = "gravity_engine"
version = "0.1.0"
edition = "2021"
publish = false

[dependencies]
macroquad = "0.4"
rapier2d = "0.22"
gif = "0.13"
image = { version = "0.25", default-features = false, features = ["png", "jpeg", "gif", "webp", "bmp", "tiff", "ico", "tga", "qoi", "hdr", "dds", "ff", "pnm"] }
resvg = { version = "0.44", default-features = false, features = ["text", "raster-images"] }
ureq = "2"
ringbuf = "0.3"
openmpt = "0.3"
