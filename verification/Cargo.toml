[package]
name = "oxc_modernize_core"
version = "0.1.0"
edition = "2021"
publish = false

[dependencies]
oxc_allocator = "0.80"
oxc_ast = "0.80"
oxc_ast_visit = "0.80"
oxc_codegen = "0.80"
oxc_parser = "0.80"
oxc_semantic = "0.80"
oxc_span = "0.80"
