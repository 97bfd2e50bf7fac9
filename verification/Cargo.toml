[package]
name = "dioxus_components"
version = "0.1.0"
edition = "2021"
publish = false

[dependencies]
time = "=0.3.55"
palette = "=0.7.7"
