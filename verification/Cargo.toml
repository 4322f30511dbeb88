[package]
name = "error_enum"
version = "0.1.0"
edition = "2021"
publish = false

[dependencies]
stringzilla = "=3.12.6"
annotate-snippets = "=0.12.16"
ariadne = "=0.6.0"
codespan-reporting = "=0.13.1"
miette = "=7.6.0"
