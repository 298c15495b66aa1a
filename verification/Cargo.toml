[package]
name = "gst-plugins"
version = "0.1.0"
edition = "2021"
rust-version = "1.95"
publish = false

[dependencies]
byte-slice-cast = "=1.2.3"
earshot = "=1.2.2"
flume = "=0.12.0"
gstreamer = "=0.24.5"
gstreamer-audio = "=0.24.5"
gstreamer-base = "=0.24.5"
# A dependency of gstreamer, held where this compiler can build it.
kstring = "=2.0.2"
log = "=0.4.35"
tokio = { version = "=1.54.1", features = ["macros", "net", "rt", "sync", "time"] }
tokio-util = "=0.7.20"
transcribe-cpp = "=0.1.3"
