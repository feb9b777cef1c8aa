[package]
name = "distmesh"
version = "0.1.0"
edition = "2021"
publish = false

[dependencies]
delaunator = "1"
robust = "1"
rand = "0.8"
