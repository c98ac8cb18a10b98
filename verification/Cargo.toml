[package]
name = "settlers4_widescreen_tool"
version = "0.1.0"
edition = "2021"
publish = false

[dependencies]
sha1 = "=0.10.7"
hex = "=0.4.3"
anyhow = "=1.0.104"
display-info = "=0.5.10"
iced = { version = "=0.14.0", default-features = false, features = ["tiny-skia", "x11", "thread-pool"] }
iced_fonts = { version = "=0.3.0", features = ["bootstrap"] }
rfd = { version = "=0.17.2", default-features = false, features = ["xdg-portal"] }
