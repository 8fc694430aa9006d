[package]
name = "modbus_workbench"
version = "0.1.0"
edition = "2021"
publish = false

[dependencies]
calamine = "*"
rust_xlsxwriter = "*"
serde = { version = "1", features = ["derive"] }
serde_json = "1"
serial2 = "*"
thiserror = "*"
tokio = { version = "1", features = ["full"] }
