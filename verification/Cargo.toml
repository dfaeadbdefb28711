[package]
name = "mlnote_rs"
version = "0.1.0"
edition = "2021"
publish = false

[dependencies]
anyhow = "1"
plotters = { version = "0.3", default-features = false, features = ["bitmap_backend", "bitmap_encoder", "all_series", "all_elements", "full_palette", "ab_glyph"] }
