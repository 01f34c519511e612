[package]
name = "amas"
version = "0.1.0"
edition = "2021"
publish = false

[dependencies]
petgraph = "=0.8.3"
walkdir = "=2.5.0"
oxc_allocator = "=0.139.0"
oxc_ast = "=0.139.0"
oxc_ast_visit = "=0.139.0"
oxc_parser = "=0.139.0"
oxc_span = "=0.139.0"
