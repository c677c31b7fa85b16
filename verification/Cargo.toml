[package]
name = "markup_pager"
version = "0.1.0"
edition = "2021"
publish = false

[dependencies]
unicode-segmentation = "1"
ratatui = "0.26"
crossterm = "0.27"
