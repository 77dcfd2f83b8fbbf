[package]
name = "mpdf"
version = "0.1.0"
edition = "2021"
publish = false

[dependencies]
hex = "0.4"
html5ever = "0.26"
markup5ever_rcdom = "0.2"
printpdf = "0.5"
png = "0.16"
font-kit = "0.11"
