[package]
name = "unity_scene_repacker"
version = "0.1.0"
edition = "2021"
publish = false

[dependencies]
anyhow = "1"
byteorder = "1"
clap = { version = "4", features = ["derive"] }
clap_complete = { version = "4", features = ["unstable-dynamic"] }
elsa = "*"
indexmap = { version = "2", features = ["serde"] }
json5 = "*"
libloading = "*"
log = "0.4"
lz4_flex = "*"
memmap2 = "*"
paris = { version = "*", features = ["macros"] }
rabex = "*"
rayon = "1"
rustc-hash = "2"
serde = { version = "1", features = ["derive"] }
serde_json = "1"
steamlocate = "2"
