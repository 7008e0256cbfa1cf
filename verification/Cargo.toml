[package]
name = "monster_step_viewer"
version = "0.1.0"
edition = "2021"
publish = false

[dependencies]
meshopt = "*"
png = "*"
monstertruck = { version = "*", features = ["step", "meshing", "solid", "modeling"] }
anyhow = "*"
dirs = "*"
log = "*"
glam = "*"
parking_lot = "*"
crossbeam = "*"
rayon = "*"
ahash = "*"
arboard = "*"
rfd = "*"
nsi = "*"
serde = { version = "*", features = ["derive"] }
serde_json = "*"
