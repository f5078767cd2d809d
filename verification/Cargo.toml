[package]
name = "subnet_calc"
version = "0.1.0"
edition = "2021"
publish = false

[dependencies]
dark-light = "1"
iced = { version = "0.13", default-features = false, features = ["tiny-skia", "fira-sans", "auto-detect-theme"] }
iced_aw = { version = "0.11", default-features = false, features = ["number_input"] }
