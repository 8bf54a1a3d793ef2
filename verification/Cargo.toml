[package]
name = "gpx_report"
version = "0.1.0"
edition = "2021"
publish = false

[dependencies]
xmltree = "*"
zip = "*"
time = "*"
