[package]
name = "pdf_studier"
version = "0.1.0"
edition = "2021"
publish = false

[dependencies]
md5 = "*"
serde = { version = "1", features = ["derive"] }
serde_json = "1"
directories = "*"
notify = "*"
interprocess = "*"
mupdf = "*"
druid = "0.7"
num-complex = "*"
