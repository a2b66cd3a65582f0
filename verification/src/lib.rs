//! Clipboard-to-phone helper: title parsing, clipboard filtering, device
//! session bookkeeping and the small wire formats spoken with the phone.

pub mod text;
pub mod app;
pub mod config;
pub mod logic;
pub mod network;
pub mod platform;
pub mod ui;
pub mod utils;
