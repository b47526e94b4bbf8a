[package]
name = "snake_game"
version = "0.1.0"
edition = "2021"
publish = false

[dependencies]
bevy = { version = "=0.5.0", default-features = false, features = ["render"] }
# The engine's input crate, named so that the library links the keyboard
# state without the renderer.
bevy_input = "=0.5.0"
rand = "=0.8.8"
# The engine's derive crates need the `full` feature of syn 1 and do not ask
# for it. These releases of tracing, which the engine depends on, do.
tracing = "=0.1.26"
tracing-attributes = "=0.1.15"
