[package]
name = "workspace_rings"
version = "0.1.0"
edition = "2021"
publish = false

[dependencies]
i3ipc = "*"
