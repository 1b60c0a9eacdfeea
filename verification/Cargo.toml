[package]
name = "svg_conversion_wasm"
version = "0.1.0"
edition = "2021"
publish = false

[dependencies]
xmltree = "0.10"
csscolorparser = "0.7"
wasm-bindgen = "0.2"
