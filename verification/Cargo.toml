[package]
name = "booklet_imposition"
version = "0.1.0"
edition = "2021"
publish = false

[dependencies]
native-dialog = "*"
oxidize-pdf = "*"
pdfium-render = "*"
webbrowser = "*"
