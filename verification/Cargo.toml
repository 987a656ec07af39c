[package]
name = "spatial_kernels"
version = "0.1.0"
edition = "2021"
publish = false

[dependencies]
arrow-array = "58"
arrow-buffer = "58"
arrow-cast = "58"
arrow-schema = "58"
datafusion = { version = "54", default-features = false }
geo = "*"
geo-traits = "*"
geoarrow-array = "0.8"
geoarrow-schema = "0.8"
geohash = "*"
geojson = "*"
proj = "*"
serde_json = "1"
wkb = "*"
