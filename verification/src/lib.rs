//! The logic of a Neovim plugin that runs Rust futures on the editor's libuv
//! loop: the byte queues behind its TCP stream, the task pool behind its
//! executor, its window slot, its commands, and the steps of its call to Ollama.
pub mod commands;
pub mod config;
pub mod connect;
pub mod executor;
pub mod http;
pub mod json;
pub mod ollama;
pub mod pool;
pub mod progress;
pub mod reads;
pub mod tcp;
pub mod waker;
pub mod window;
