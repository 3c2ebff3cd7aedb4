[package]
name = "hlpll-backtester"
version = "0.1.0"
edition = "2021"

[dependencies]
chrono = { version = "0.4", default-features = false, features = ["std", "clock"] }
clap = { version = "4", features = ["derive"] }
crossterm = "0.27"
egui = "0.29"
egui_plot = "0.29"
env_logger = "0.11"
log = "0.4"
nalgebra = { version = "0.33", default-features = false, features = ["std"] }
plotters = { version = "0.3", default-features = false, features = ["bitmap_backend", "bitmap_encoder", "line_series", "chrono", "ab_glyph"] }
polars = { version = "0.45", default-features = false, features = ["lazy", "parquet", "csv", "is_in"] }
rand = "0.8"
ratatui = { version = "0.26", default-features = false, features = ["crossterm"] }
reqwest = { version = "0.12", default-features = false, features = ["blocking", "json", "rustls-tls"] }
serde = { version = "1.0", features = ["derive"] }
