[package]
name = "firmware"
version = "0.1.0"
edition = "2021"
publish = false

[dependencies]
crc = "=3.4.0"
heapless = "=0.8.0"
critical-section = "1"
edge-mdns = "*"
edge-nal = "*"
edge-nal-embassy = "*"
embassy-executor = "*"
embassy-futures = "*"
embassy-net = { version = "*", features = ["proto-ipv4", "tcp", "udp", "dhcpv4", "dns", "medium-ip"] }
embassy-sync = "*"
embassy-time = "*"
embedded-hal-bus = "*"
embedded-storage = "*"
minimq = "*"
picoserve = { version = "*", features = ["embassy"] }
rand_core = "0.10"
serde = { version = "1", default-features = false, features = ["derive"] }
serde-json-core = "*"
static_cell = "*"
esp-alloc = "*"
esp-bootloader-esp-idf = { version = "*", features = ["esp32s3"] }
esp-hal = { version = "*", features = ["esp32s3"] }
esp-println = { version = "*", features = ["esp32s3"] }
esp-radio = { version = "*", features = ["esp32s3", "wifi"] }
esp-rtos = { version = "*", features = ["esp32s3"] }
esp-storage = { version = "*", features = ["esp32s3"] }
