[package]
name = "plotters-iced"
version = "0.10.0"
edition = "2021"
publish = false

[dependencies]
lru = "0.7"
plotters = { version = "0.3", default-features = false }
plotters-backend = "0.3"
iced_widget = { version = "0.12", features = ["canvas"] }
iced_graphics = { version = "0.12", features = ["geometry"] }
