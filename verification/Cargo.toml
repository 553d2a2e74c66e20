[package]
name = "generic_launcher"
version = "0.1.0"
edition = "2021"
publish = false

[dependencies]
chrono = "0.4"
toml = "*"
gtk4 = "*"
gdk4 = "*"
gio = "*"
glib = "*"
gtk4-layer-shell = "*"
hyprland = "*"
inotify = "*"
libc = "*"
pipewire = "*"
tokio = { version = "1", features = ["rt-multi-thread", "net", "time"] }
