[package]
name = "markdown-browser"
version = "0.1.0"
edition = "2021"
publish = false

[dependencies]
comrak = { version = "*", default-features = false, features = ["shortcodes"] }
syntect = { version = "5", default-features = false, features = ["default-fancy"] }
unicode-width = "*"
unicode-segmentation = "*"
url = "2"
clap = { version = "4", features = ["derive"] }
crossterm = "*"
ratatui = "*"
notify = "*"
open = "*"
arboard = { version = "*", default-features = false }
tiny_http = "*"
ureq = "*"
toml = "*"
serde = { version = "1", features = ["derive"] }
