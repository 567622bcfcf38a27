[package]
name = "mdxlroptimizer"
version = "0.1.0"
edition = "2021"
publish = false

[dependencies]
scroll = "0.10"
anyhow = "1"
log = "0.4"
flexi_logger = "0.15"
structopt = "0.3"
took = "0.1"
