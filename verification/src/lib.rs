//! A launcher for the marks kept on a marks server.
pub mod text;
pub mod title;
pub mod search;
pub mod mark;
pub mod launcher;
pub mod fonts;
pub mod config;
pub mod session_file;
pub mod icon_cache;
pub mod api;
pub mod app;
pub mod icons;
