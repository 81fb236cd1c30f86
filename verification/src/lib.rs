//! NetWatch: network traffic accounting for Linux interfaces.
pub mod text;
pub mod error;
pub mod types;
pub mod time;
pub mod config;
pub mod stats;
pub mod collector;
pub mod models;
pub mod export;
pub mod tui;
pub mod daemon;
pub mod widgets;
pub mod screens;
