//! Runtime configuration for a scan.  Immutable for the duration of a
//! run; loading from and saving to disk is the caller's business.

use vstd::prelude::*;

verus! {

/// Tuning for the scan engine.  Timeouts that the original
/// configuration carried as fractional seconds are held here in whole
/// milliseconds; the coarser timeouts stay in whole seconds.
#[derive(Clone, Copy, Debug, PartialEq, Eq, Structural)]
pub struct ScannerConfig {
    /// Size of the semaphore bounding in-flight probes.
    pub max_workers: usize,
    /// Per-request timeout for fingerprint probes, in milliseconds.
    pub timeout_ms: u64,
    pub chunk_size: usize,
    pub max_retries: usize,
    /// Worker count for per-chunk probing.
    pub workers: usize,
    /// How many targets are dispatched per batch.
    pub batch_size: usize,
    /// Connect timeout of the shared HTTP client, in milliseconds.
    pub connection_timeout_ms: u64,
    /// Timeout for one playlist fetch, in seconds.
    pub playlist_timeout: usize,
    /// Timeout for one channel probe, in seconds.
    pub channel_timeout: usize,
    pub pool_connections: usize,
    /// Idle-connection bound per host for the shared HTTP client.
    pub pool_maxsize: usize,
}

/// Reduced configuration used by the simplified front-end scanner.
/// The original carried the timeout as an opaque duration; it is held
/// here in whole seconds.
#[derive(Clone, Copy, Debug, PartialEq, Eq, Structural)]
pub struct SimpleScannerConfig {
    pub threads: u32,
    pub timeout_secs: u64,
}

/// Tuning for the address-harvesting collaborator.
#[derive(Clone, Copy, Debug, PartialEq, Eq, Structural)]
pub struct ASNConfig {
    pub max_workers: usize,
    pub api_timeout: usize,
}

/// Which interface language is preferred by default.
#[derive(Clone, Debug)]
pub struct LanguageConfig {
    pub default: String,
}

/// Application-level preferences.
#[derive(Clone, Debug)]
pub struct AppConfig {
    pub lang: String,
}

/// The whole runtime configuration.
#[derive(Clone, Debug)]
pub struct Config {
    pub scanner: ScannerConfig,
    pub asn: ASNConfig,
    pub language: LanguageConfig,
    pub app: AppConfig,
}

impl Default for Config {
    /// The stock configuration a run starts from when none was saved.
    fn default() -> (r: Self)
        ensures
            r.scanner == (ScannerConfig {
                max_workers: 3000,
                timeout_ms: 800,
                chunk_size: 10,
                max_retries: 0,
                workers: 200,
                batch_size: 1000,
                connection_timeout_ms: 500,
                playlist_timeout: 5,
                channel_timeout: 2,
                pool_connections: 50,
                pool_maxsize: 50,
            }),
            r.asn == (ASNConfig { max_workers: 20, api_timeout: 5 }),
            r.language.default@ == "en"@,
            r.app.lang@ == "en"@,
    {
        Config {
            scanner: ScannerConfig {
                max_workers: 3000,
                timeout_ms: 800,
                chunk_size: 10,
                max_retries: 0,
                workers: 200,
                batch_size: 1000,
                connection_timeout_ms: 500,
                playlist_timeout: 5,
                channel_timeout: 2,
                pool_connections: 50,
                pool_maxsize: 50,
            },
            asn: ASNConfig { max_workers: 20, api_timeout: 5 },
            language: LanguageConfig { default: String::from_str("en") },
            app: AppConfig { lang: String::from_str("en") },
        }
    }
}

impl Default for SimpleScannerConfig {
    fn default() -> (r: Self)
        ensures
            r == (SimpleScannerConfig { threads: 4, timeout_secs: 5 }),
    {
        SimpleScannerConfig { threads: 4, timeout_secs: 5 }
    }
}

} // verus!
