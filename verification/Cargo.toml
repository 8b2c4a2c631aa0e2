[package]
name = "itq"
version = "0.1.0"
edition = "2021"
publish = false

[dependencies]
uuid = { version = "1", features = ["v4", "serde"] }
chrono = { version = "0.4", default-features = false, features = ["clock", "serde"] }
serde = { version = "1", features = ["derive"] }
thiserror = "2"
diesel = { version = "2", default-features = false, features = ["postgres_backend", "uuid", "chrono"] }
diesel-async = { version = "0.5", features = ["postgres", "deadpool"] }
leptos = { version = "0.7", features = ["ssr"] }
leptos_axum = { version = "0.7" }
leptos_router = { version = "0.7", features = ["ssr"] }
axum = { version = "0.7" }
tokio = { version = "1", features = ["rt-multi-thread", "macros", "net"] }
dotenvy = "0.15"
