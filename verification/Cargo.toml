[package]
name = "cmux-sidebar-agents"
version = "0.1.0"
edition = "2021"
publish = false

[dependencies]
anyhow = "1"
cmux-client = "*"
crossterm = "0.29"
ratatui = "0.29"
serde_json = "1"
