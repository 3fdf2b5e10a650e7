//! Data models handed in by the web layer.
pub mod auth;
pub mod config;
