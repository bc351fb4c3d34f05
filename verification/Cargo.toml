[package]
name = "md_timesheet"
version = "0.3.1"
edition = "2021"
publish = false

[dependencies]
chrono = "0.4"
gtk4 = "*"
libadwaita = "*"
once_cell = "1"
