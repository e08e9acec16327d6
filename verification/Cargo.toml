[package]
name = "keycloak-openapi-transformer"
version = "0.1.0"
edition = "2021"
publish = false

[dependencies]
heck = "*"
indexmap = "*"
lazy_static = "*"
openapiv3 = "*"
regex = "*"
scraper = "*"
serde_json = "*"
