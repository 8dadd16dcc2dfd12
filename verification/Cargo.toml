[package]
name = "slint_layer_support"
version = "0.1.0"
edition = "2021"
publish = false

[dependencies]
ttf-parser = "0.25"
fontique = "*"
memmap2 = "0.9"
wayland-client = "0.31"
wayland-protocols-wlr = { version = "0.3", features = ["client"] }
smithay-client-toolkit = { version = "0.19", default-features = false }
