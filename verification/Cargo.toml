[package]
name = "dizk_bridge"
version = "0.1.0"
edition = "2021"
publish = false

[dependencies]
bellperson = "=0.27.0"
blstrs = "=0.7.1"
ff = "=0.13.1"
group = "=0.13.0"
rayon = "=1.12.0"
