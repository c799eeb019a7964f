[package]
name = "codeviz"
version = "0.1.0"
edition = "2021"
publish = false

[dependencies]
tree-sitter = "=0.22.6"
tree-sitter-go = "=0.21.2"
tree-sitter-python = "=0.21.0"
tree-sitter-rust = "=0.21.2"
tree-sitter-java = "=0.21.0"
tree-sitter-typescript = "=0.21.2"
tree-sitter-kotlin = "=0.3.8"
tree-sitter-ruby = "=0.21.0"
tree-sitter-swift = "=0.5.0"
tree-sitter-c-sharp = "=0.21.3"
tree-sitter-php = "=0.22.8"
tree-sitter-dart = "=0.0.4"
tree-sitter-lua = "=0.1.0"
sha2 = "=0.10.9"
hex = "=0.4.3"
serde = { version = "=1.0.229", features = ["derive"] }
serde_json = "=1.0.154"
toml = "0.8"

[dev-dependencies]
tempfile = "=3.27.0"
