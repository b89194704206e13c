[package]
name = "cmux_sidebar_ports"
version = "0.1.0"
edition = "2021"
publish = false

[dependencies]
anyhow = "1"
cmux-client = "*"
crossterm = "0.28"
ratatui = "0.29"
