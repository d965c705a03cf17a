//! The service's settings, as read from its configuration file and environment.
use vstd::prelude::*;

use crate::models::owned;

verus! {

#[derive(Debug, Clone)]
pub struct Settings {
    pub server: ServerSettings,
    pub tls: TlsSettings,
    pub auth: AuthSettings,
    pub database: DatabaseSettings,
    pub strongswan: Option<StrongSwanSettings>,
    pub logging: LoggingSettings,
}

#[derive(Debug, Clone)]
pub struct ServerSettings {
    pub host: String,
    pub port: u16,
}

#[derive(Debug, Clone)]
pub struct TlsSettings {
    pub enabled: bool,
    pub cert_path: String,
    pub key_path: String,
}

/// API-key protection: whether it is on, the header that carries the key, and the
/// user and key seeded when no key is active.
#[derive(Debug, Clone)]
pub struct AuthSettings {
    pub enabled: bool,
    pub header_name: Option<String>,
    pub bootstrap_user: Option<String>,
    pub bootstrap_api_key: Option<String>,
}

/// Where the SQLite database lives.
#[derive(Debug, Clone)]
pub struct DatabaseSettings {
    pub db_path: Option<String>,
}

/// Locations used around swanctl: its lock file, a directory for temporary files
/// and its configuration directory.
#[derive(Debug, Clone)]
pub struct StrongSwanSettings {
    pub lock_path: Option<String>,
    pub tmp_dir: Option<String>,
    pub conf_dir: Option<String>,
}

/// Logging: the levels of the service and of the workers (0 off, 1 info, 3 errors),
/// whether the journal is used, the log files, the queue's capacity and the size
/// in MB at which files are rotated.
#[derive(Debug, Clone)]
pub struct LoggingSettings {
    pub service_level: u8,
    pub worker_level: u8,
    pub use_journalctl: Option<bool>,
    pub service_access_log: Option<String>,
    pub service_error_log: Option<String>,
    pub worker_log: Option<String>,
    pub channel_capacity: Option<usize>,
    pub rotate_size_mb: Option<u64>,
}


impl AuthSettings {
    /// The header that carries the API key: the configured one, `x-api-key` by default.
    pub fn api_key_header(&self) -> (r: String)
        ensures
            r@ == match self.header_name {
                Some(h) => h@,
                None => "x-api-key"@,
            },
    {
        match &self.header_name {
            Some(h) => h.clone(),
            None => owned("x-api-key"),
        }
    }

    /// The user the bootstrap key is seeded for: the configured one, `admin` by default.
    pub fn bootstrap_user_name(&self) -> (r: String)
        ensures
            r@ == match self.bootstrap_user {
                Some(u) => u@,
                None => "admin"@,
            },
    {
        match &self.bootstrap_user {
            Some(u) => u.clone(),
            None => owned("admin"),
        }
    }
}

impl LoggingSettings {
    /// Whether the journal is used: yes unless configured otherwise.
    pub fn journal_enabled(&self) -> (b: bool)
        ensures
            b == match self.use_journalctl {
                Some(v) => v,
                None => true,
            },
    {
        match self.use_journalctl {
            Some(v) => v,
            None => true,
        }
    }

    /// The capacity of the log queue: 1000 messages unless configured otherwise.
    pub fn queue_capacity(&self) -> (r: usize)
        ensures
            r == match self.channel_capacity {
                Some(c) => c,
                None => 1000,
            },
    {
        match self.channel_capacity {
            Some(c) => c,
            None => 1000,
        }
    }

    /// The size at which log files rotate, in bytes: the configured number of MB
    /// (10 by default) times 1024 * 1024.
    pub fn rotate_size_bytes(&self) -> (r: u64)
        requires
            match self.rotate_size_mb {
                Some(m) => m * 1024 * 1024 <= u64::MAX,
                None => true,
            },
        ensures
            r == match self.rotate_size_mb {
                Some(m) => m * 1024 * 1024,
                None => 10int * 1024 * 1024,
            },
    {
        let mb: u64 = match self.rotate_size_mb {
            Some(m) => m,
            None => 10,
        };
        mb * 1024 * 1024
    }
}

} // verus!
