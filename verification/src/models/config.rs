//! Configuration model, as plain data.
use vstd::prelude::*;

verus! {

/// Basic configuration shared across handlers.
#[derive(Debug)]
pub struct ServerConfig {
    pub domain: String,
    pub address: String,
    pub port: u16,
    pub auth_service_url: String,
    pub templates_dir: String,
    pub secret: String,
    pub upload_path: String,
}

} // verus!
