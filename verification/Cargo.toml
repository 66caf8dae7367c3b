[package]
name = "tui_tree_widget"
version = "0.1.0"
edition = "2021"
publish = false

[dependencies]
ratatui = { version = "0.29", default-features = false }
serde_json = "1"
tui = { version = "0.19", default-features = false }
unicode-width = "0.2"
