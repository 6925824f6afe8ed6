[package]
name = "cutter"
version = "0.1.0"
edition = "2021"
publish = false

[dependencies]
accessibility-sys = "0.2"
alacritty_terminal = "=0.25.1"
chrono = { version = "=0.4.45", features = ["serde"] }
clap = { version = "4", default-features = false, features = ["std", "derive", "help", "usage", "error-context"] }
colored = "3"
core-foundation = "0.10"
core-foundation-sys = "0.8"
core-graphics = "0.25"
dialoguer = { version = "0.12", default-features = false }
dirs = "6"
eframe = { version = "=0.31.1", default-features = false, features = ["default_fonts", "glow", "x11"] }
egui-phosphor = "0.9"
egui_term = "=0.1.0"
libc = "0.2"
notify-debouncer-mini = "0.7"
rfd = { version = "0.17", default-features = false, features = ["xdg-portal"] }
serde = { version = "1", features = ["derive"] }
serde_json = "=1.0.154"
tabled = { version = "0.20", default-features = false, features = ["std", "derive"] }
thiserror = "2"
toml = "0.8"
