[package]
name = "business_calendar"
version = "0.1.0"
edition = "2021"
publish = false

[dependencies]
ahash = "0.8"
chrono = { version = "0.4", features = ["unstable-locales"] }
chrono-tz = "0.8"
polars = { version = "0.39", default-features = false, features = ["dtype-date", "dtype-datetime", "dtype-duration", "timezones", "temporal", "strings"] }
polars-arrow = { version = "0.39", default-features = false }
polars-ops = { version = "0.39", default-features = false, features = ["timezones", "dtype-datetime"] }
pyo3 = { version = "0.21", features = ["extension-module", "abi3-py38"] }
pyo3-polars = { version = "0.13", features = ["derive"] }
serde = { version = "1", features = ["derive"] }
