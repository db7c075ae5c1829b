[package]
name = "picslim"
version = "0.1.0"
edition = "2021"
publish = false

[dependencies]
gif = "*"
imagequant = "*"
rayon = "*"
image = "*"
lodepng = "*"
oxipng = "*"
mozjpeg = "*"
base64 = "*"
uuid = { version = "*", features = ["v4"] }
