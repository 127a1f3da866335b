//! The configuration of the cache server.

use crate::util::text::{append_str, str_chars, string_from_chars};
use vstd::prelude::*;

verus! {

/// The configuration of the server.
#[derive(Clone, Debug, PartialEq, Eq)]
pub struct BtdtServerConfig {
    /// The addresses to listen on, each as host and port.
    pub bind_addrs: Vec<String>,
    /// Whether the documentation of the API is served.
    pub enable_api_docs: bool,
    /// The path of the bundle with the certificate and key for TLS; empty
    /// to serve without TLS.
    pub tls_keystore: String,
    /// The password of the bundle.
    pub tls_keystore_password: String,
    /// The path of the private key that bearer tokens are signed with.
    pub auth_private_key: String,
    /// The settings of the periodic eviction.
    pub cleanup: CleanupConfig,
    /// The caches by their identifiers.
    pub caches: Vec<(String, CacheConfig)>,
}

/// The settings of the periodic eviction.
#[derive(Clone, Debug, PartialEq, Eq)]
pub struct CleanupConfig {
    /// The span of time between two eviction passes.
    pub interval: String,
    /// The age beyond which entries are evicted.
    pub cache_expiration: String,
    /// The space that the blobs of a cache may take.
    pub max_cache_size: String,
}

/// Where a cache keeps its data.
#[derive(Clone, Debug, PartialEq, Eq)]
pub enum CacheConfig {
    /// In memory.
    InMemory,
    /// In the directory at `path`.
    Filesystem { path: String },
}

/// Why the configuration cannot be loaded.
#[derive(Clone, Debug, PartialEq, Eq)]
pub enum LoadConfigError {
    /// A source of the configuration cannot be read, or holds values that
    /// are no configuration.
    ConfigError(String),
}

impl LoadConfigError {
    /// A description of the error.
    pub fn message(&self) -> (text: String)
        ensures
            self matches LoadConfigError::ConfigError(reason) && text@ == "configuration error: "@
                + reason@,
    {
        match self {
            LoadConfigError::ConfigError(reason) => {
                let mut chars = str_chars("configuration error: ");
                append_str(&mut chars, reason.as_str());
                string_from_chars(chars.as_slice())
            },
        }
    }
}

impl Default for CleanupConfig {
    /// An eviction pass every ten minutes, which removes what was not used
    /// for seven days and keeps each cache below 50 GiB.
    fn default() -> (config: Self)
        ensures
            config.interval@ == "10min"@,
            config.cache_expiration@ == "7days"@,
            config.max_cache_size@ == "50GiB"@,
    {
        CleanupConfig {
            interval: "10min".to_owned(),
            cache_expiration: "7days".to_owned(),
            max_cache_size: "50GiB".to_owned(),
        }
    }
}

impl Default for BtdtServerConfig {
    /// The configuration of a server for which nothing was configured: it
    /// listens on port 8707 of all addresses, serves the documentation of
    /// the API, uses no TLS, and has no caches.
    fn default() -> (config: Self)
        ensures
            config.bind_addrs@.len() == 1,
            config.bind_addrs@[0]@ == "0.0.0.0:8707"@,
            config.enable_api_docs,
            config.tls_keystore@ == ""@,
            config.tls_keystore_password@ == ""@,
            config.auth_private_key@ == ""@,
            config.cleanup.interval@ == "10min"@,
            config.cleanup.cache_expiration@ == "7days"@,
            config.cleanup.max_cache_size@ == "50GiB"@,
            config.caches@.len() == 0,
    {
        let mut bind_addrs: Vec<String> = Vec::new();
        bind_addrs.push("0.0.0.0:8707".to_owned());
        BtdtServerConfig {
            bind_addrs,
            enable_api_docs: true,
            tls_keystore: "".to_owned(),
            tls_keystore_password: "".to_owned(),
            auth_private_key: "".to_owned(),
            cleanup: CleanupConfig::default(),
            caches: Vec::new(),
        }
    }
}

} // verus!
