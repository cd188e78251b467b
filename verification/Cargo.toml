[package]
name = "geo_relate"
version = "0.1.0"
edition = "2021"
publish = false

[dependencies]
geographiclib-rs = "*"
geo-types = "*"
