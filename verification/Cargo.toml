[package]
name = "ljsp-macro-compiler-rs"
version = "0.1.0"
edition = "2021"
publish = false

[dependencies]
anyhow = "=1.0.104"
deno_core = "=0.413.0"
serde_json = "=1.0.154"
serde_v8 = "=0.322.0"
swc_common = { version = "=27.0.0", features = ["sourcemap"] }
swc_ecma_ast = "=30.0.0"
swc_ecma_codegen = "=33.0.0"
swc_ecma_parser = "=47.0.0"
swc_ecma_visit = "=30.0.0"
tokio = { version = "=1.54.1", features = ["macros", "rt-multi-thread"] }
