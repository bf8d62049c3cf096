[package]
name = "wl_binclock"
version = "0.1.0"
edition = "2021"
publish = false

[dependencies]
chrono = "=0.4.45"
clap = { version = "=4.6.7", features = ["derive"] }
image = { version = "=0.25.10", default-features = false, features = ["bmp", "dds", "exr", "ff", "gif", "hdr", "ico", "jpeg", "png", "pnm", "qoi", "tga", "tiff", "webp", "rayon"] }
nix = { version = "=0.29.0", features = ["poll", "fs"] }
rand = "=0.9.5"
reqwest = { version = "=0.12.28", default-features = false, features = ["blocking", "json", "rustls-tls"] }
smithay-client-toolkit = { version = "=0.19.2", default-features = false }
xdg = "=2.5.2"
