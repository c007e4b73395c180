[package]
name = "vectorize"
version = "0.1.0"
edition = "2021"
publish = false

[dependencies]
anyhow = "1"
image = "0.24"
kmeans_colors = "0.6"
palette = "0.7"
tempfile = "3"
