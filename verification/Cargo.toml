[package]
name = "meonode_compiler"
version = "0.1.0"
edition = "2021"
publish = false

[dependencies]
serde = { version = "1", features = ["derive"] }
serde_json = "1"
swc_core = { version = "74", features = ["ecma_plugin_transform", "ecma_parser", "ecma_transforms"] }
