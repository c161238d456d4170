//! The application's configuration data. Loading these values from the
//! process environment, and the filesystem checks of validation, belong to
//! the surrounding program; the library holds the shapes and the pure
//! helpers.

use vstd::prelude::*;

verus! {

/// The whole application configuration.
#[derive(Debug, Clone)]
pub struct AppConfig {
    pub app_name: String,
    pub app_version: String,
    pub posts_per_page: u32,
    pub static_url: String,
    pub static_path: String,
    pub http: HTTPConfig,
    pub upload: UploadConfig,
    pub db: DBConfig,
    pub redis: RedisConfig,
    pub log: LogConfig,
}

/// HTTP server settings.
#[derive(Debug, Clone)]
pub struct HTTPConfig {
    pub ip: String,
    pub port: u16,
    pub max_body_size: u64,
    pub read_timeout_secs: u64,
    pub write_timeout_secs: u64,
    pub idle_timeout_secs: u64,
    pub cors: CORSConfig,
}

/// Upload directory and thumbnailing settings.
#[derive(Debug, Clone)]
pub struct UploadConfig {
    pub base_path: String,
    pub base_url: String,
    pub thumb_width: u32,
    pub image_formats: Vec<String>,
}

/// Relational database settings.
#[derive(Debug, Clone)]
pub struct DBConfig {
    pub url: String,
    pub pool_size: u32,
    pub auto_migrate: bool,
}

/// Index store settings.
#[derive(Debug, Clone)]
pub struct RedisConfig {
    pub url: String,
}

/// Cross-origin settings.
#[derive(Debug, Clone)]
pub struct CORSConfig {
    pub allowed_origins: Vec<String>,
    pub allowed_methods: Vec<String>,
    pub allowed_headers: Vec<String>,
    pub allow_credentials: bool,
    pub max_age: u64,
}

/// Request-logging settings.
#[derive(Debug, Clone)]
pub struct LogConfig {
    pub log_requests: bool,
}

/// Owned copies of a list of string slices.
pub fn strs_to_strings(v: Vec<&str>) -> (r: Vec<String>)
    ensures
        r@.len() == v@.len(),
        forall|i: int| 0 <= i < v@.len() ==> (#[trigger] r@[i])@ == v@[i]@,
{
    let mut r: Vec<String> = Vec::new();
    let mut i: usize = 0;
    while i < v.len()
        invariant
            i <= v@.len(),
            r@.len() == i,
            forall|k: int| 0 <= k < i ==> (#[trigger] r@[k])@ == v@[k]@,
        decreases v@.len() - i,
    {
        r.push(v[i].to_owned());
        i = i + 1;
    }
    r
}

} // verus!
