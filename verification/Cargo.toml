[package]
name = "aah_cv"
version = "0.1.0"
edition = "2021"
publish = false

[dependencies]
ndarray = "=0.15.6"
rand = "=0.8.8"
image = "=0.24.9"
imageproc = "=0.23.1"
fftconvolve = "=0.1.1"
wgpu = "=0.19.4"
bytemuck = { version = "=1.25.2", features = ["derive"] }
pollster = "=0.3.0"
futures-intrusive = "=0.5.0"
color-print = "=0.3.7"
serde = { version = "=1.0.229", features = ["derive"] }
ocrs = "=0.13.1"
rten = "=0.26.0"
