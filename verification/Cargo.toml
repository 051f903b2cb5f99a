[package]
name = "ems-model"
version = "0.1.0"
edition = "2021"
publish = false

[dependencies]
anyhow = "1"
good_lp = { version = "*", default-features = false, features = ["clarabel"] }
plotters = { version = "*", default-features = false, features = ["bitmap_backend", "bitmap_encoder", "all_series", "all_elements"] }
serde = { version = "1", features = ["derive"] }
ts-rs = "*"
utoipa = "*"
