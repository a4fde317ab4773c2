[package]
name = "structviz"
version = "0.1.0"
edition = "2021"
publish = false

[dependencies]
anyhow = "=1.0.104"
ra_ap_ide = "=0.0.330"
ra_ap_ide_db = "=0.0.330"
ra_ap_load-cargo = "=0.0.330"
ra_ap_project_model = "=0.0.330"
ra_ap_vfs = "=0.0.330"
salsa = "=0.26.0"
salsa-macro-rules = "=0.26.0"
salsa-macros = "=0.26.0"
unicode-ident = "=1.0.22"
