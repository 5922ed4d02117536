[package]
name = "martian_dedup"
version = "0.1.0"
edition = "2021"
publish = false

[dependencies]
url = "=2.5.8"
fundu = "=2.1.1"
image = { version = "=0.24.9", default-features = false, features = ["jpeg", "png", "webp"] }
image_hasher = "=1.2.0"
teloxide = { version = "=0.12.2", default-features = false, features = ["macros", "rustls", "ctrlc_handler", "throttle", "cache-me"] }
takecell = "=0.1.1"
sqlx = { version = "=0.7.4", default-features = false, features = ["postgres", "runtime-tokio", "time", "migrate"] }
tokio = { version = "=1.54.1", features = ["macros", "rt-multi-thread"] }
dptree = "=0.3.0"
dotenvy = "=0.15.7"
tracing = "=0.1.44"
tracing-subscriber = "=0.3.23"
async-trait = "=0.1.92"
