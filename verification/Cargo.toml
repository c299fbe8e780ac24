[package]
name = "xitca_h1"
version = "0.1.0"
edition = "2021"
publish = false
