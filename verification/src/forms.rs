//! Form data handed in by the web layer.
pub mod main;
