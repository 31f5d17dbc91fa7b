[package]
name = "pufferfish"
version = "0.1.0"
edition = "2021"
publish = false

[dependencies]
base64 = "0.22"
pest = "2"
pest_derive = "2"
pest-ast = "0.3"
from-pest = "0.3"
strum_macros = "0.26"
thiserror = "1"
mktemp = "0.5"
clap = { version = "4", features = ["cargo"] }
