[package]
name = "typst_live"
version = "0.1.0"
edition = "2021"
publish = false

[dependencies]
similar = "2"
serde_json = "1"
anyhow = "1"
alacritty_terminal = "*"
lsp-types = "*"
ropey = "*"
image = { version = "*", default-features = false }
raw-window-handle = "*"
