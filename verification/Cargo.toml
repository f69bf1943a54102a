[package]
name = "leptos_charts"
version = "0.1.0"
edition = "2021"

[dependencies]
itertools = "=0.12.1"
leptos = "=0.6.15"
leptos-use = "=0.13.13"
num-traits = "=0.2.19"
once_cell = "=1.21.4"
