[package]
name = "dicomweb-server"
version = "0.1.0"
edition = "2021"
publish = false

[dependencies]
actix-utils = "3"
actix-web = { version = "4", default-features = false, features = ["macros"] }
dicom = "*"
dicom-json = "*"
dicom-object = "*"
dicom-pixeldata = "*"
futures-util = "0.3"
httparse = "1"
log = "0.4"
memchr = "2"
mime = "0.3"
serde = { version = "1", features = ["derive"] }
uuid = { version = "1", features = ["v4"] }
