[package]
name = "routable"
version = "0.1.0"
edition = "2021"
publish = false

[dependencies]
darling = "*"
leptos = "*"
leptos_router = "*"
prettyplease = "*"
proc-macro2 = "*"
quote = "*"
reactive_stores = "*"
syn = { version = "*", features = ["full"] }
thiserror = "*"
