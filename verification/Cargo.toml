[package]
name = "mesh_topology"
version = "0.1.0"
edition = "2021"
publish = false

[dependencies]
petgraph = "0.6"
geojson = "0.24"
log = "0.4"
tokio = { version = "1", features = ["sync", "time", "rt"] }
