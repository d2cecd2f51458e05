//! Server, storage, limits and security configuration, with the rules that
//! fill in defaults.
use crate::text::owned;
use vstd::prelude::*;
use vstd::string::StringExecFns;

verus! {

pub struct ServerConfig {
    pub environment: String,
    pub host: String,
    pub db_port: u16,
    pub webui_port: u16,
    pub max_connections: usize,
    pub broadcast_capacity: usize,
}

pub fn default_max_connections() -> (r: usize)
    ensures
        r == 10000,
{
    10000
}

pub fn default_broadcast_capacity() -> (r: usize)
    ensures
        r == 4096,
{
    4096
}

pub struct StorageConfig {
    pub data_directory: String,
    pub max_segment_size_mb: usize,
    pub sync_mode: String,
    pub sync_interval_ms: u64,
}

pub fn default_sync_mode() -> (r: String)
    ensures
        r@ == "always"@,
{
    owned("always")
}

pub fn default_sync_interval_ms() -> (r: u64)
    ensures
        r == 100,
{
    100
}

pub struct LimitsConfig {
    pub max_concurrent_streams: usize,
    pub max_open_file_descriptors: usize,
    pub max_index_ram_mb: usize,
    pub max_segment_size_mb: usize,
    pub max_scan_results: usize,
}

pub fn default_limits() -> (r: LimitsConfig)
    ensures
        r.max_concurrent_streams == 32,
        r.max_open_file_descriptors == 64,
        r.max_index_ram_mb == 16,
        r.max_segment_size_mb == 16,
        r.max_scan_results == 100000,
{
    LimitsConfig {
        max_concurrent_streams: 32,
        max_open_file_descriptors: 64,
        max_index_ram_mb: 16,
        max_segment_size_mb: 16,
        max_scan_results: 100000,
    }
}

pub fn default_max_scan_results() -> (r: usize)
    ensures
        r == 100000,
{
    100000
}

pub struct AuthKeyConfig {
    pub system_stream: String,
    pub allow_local_auto_generation: bool,
}

pub struct ZtnaConfig {
    pub enabled: bool,
    pub cert_path: Option<String>,
    pub key_path: Option<String>,
    pub client_ca_path: Option<String>,
}

pub fn default_ztna_enabled() -> (r: bool)
    ensures
        !r,
{
    false
}

pub struct SecurityConfig {
    pub mode: String,
    pub auth_key: Option<AuthKeyConfig>,
    pub master_key: Option<String>,
    pub ztna: Option<ZtnaConfig>,
}

/// Security settings of embedded use: no authentication.
pub fn embedded_security_default() -> (r: SecurityConfig)
    ensures
        r.mode@ == "none"@,
        r.auth_key is None,
        r.master_key is None,
        r.ztna is None,
{
    SecurityConfig { mode: owned("none"), auth_key: None, master_key: None, ztna: None }
}

pub struct AppConfig {
    pub server: ServerConfig,
    pub storage: StorageConfig,
    pub limits: LimitsConfig,
    pub security: SecurityConfig,
}

/// Index RAM budget in MB: the automatic budget for the detected memory, or
/// 512 MB when the memory could not be detected.
pub fn auto_detect_index_ram_budget(detected_system_ram_mb: Option<u64>) -> (b: u64)
    ensures
        detected_system_ram_mb matches Some(r) ==> b == crate::sysinfo::spec_auto_budget(r),
        detected_system_ram_mb is None ==> b == 512,
{
    match detected_system_ram_mb {
        Some(system_ram) => crate::sysinfo::calculate_auto_budget(system_ram),
        None => 512,
    }
}

/// The security mode after loading: an explicitly configured mode is kept;
/// otherwise authentication by keys (`auth_key`) is the default, whatever
/// the environment.
pub open spec fn spec_security_mode(explicitly_set: bool, configured: Seq<char>) -> Seq<char> {
    if explicitly_set {
        configured
    } else {
        "auth_key"@
    }
}

/// Chooses the security mode when loading configuration.
pub fn resolve_security_mode(explicitly_set: bool, configured: &str) -> (r: String)
    ensures
        r@ == spec_security_mode(explicitly_set, configured@),
{
    if explicitly_set {
        owned(configured)
    } else {
        owned("auth_key")
    }
}

/// The index RAM budget in MB after loading: the automatic budget unless the
/// user set a value other than the former default of 16 MB.
pub fn resolve_index_ram_mb(explicitly_set: bool, configured_mb: usize, auto_budget_mb: u64) -> (r:
    u64)
    ensures
        (!explicitly_set || configured_mb == 16) ==> r == auto_budget_mb,
        (explicitly_set && configured_mb != 16) ==> r == configured_mb,
{
    if !explicitly_set || configured_mb == 16 {
        auto_budget_mb
    } else {
        configured_mb as u64
    }
}

/// Where the master key comes from when loading configuration.
pub enum MasterKeySource {
    /// The `LIVEN_SECURITY_MASTER_KEY` environment variable.
    Environment(String),
    /// The configuration file's own value.
    ConfigFile(String),
    /// The key file `./liven.key`.
    KeyFile(String),
    /// None of these: a new key must be generated and written to the key file.
    Generate,
}

/// Chooses the master key: the environment first, then a non-blank key of
/// the configuration file, then the key file, else a new key.
pub fn resolve_master_key(
    env_key: Option<String>,
    config_key: Option<String>,
    key_file_key: Option<String>,
) -> (r: MasterKeySource)
    ensures
        env_key matches Some(e) ==> (r matches MasterKeySource::Environment(k) && k@ == e@),
        env_key is None ==> match config_key {
            Some(c) if crate::text::trim(c@).len() > 0 => (r matches MasterKeySource::ConfigFile(
                k,
            ) && k@ == c@),
            _ => match key_file_key {
                Some(f) if f@.len() > 0 => (r matches MasterKeySource::KeyFile(k) && k@ == f@),
                _ => r is Generate,
            },
        },
{
    if let Some(e) = env_key {
        return MasterKeySource::Environment(e);
    }
    if let Some(c) = config_key {
        if !crate::text::str_trim(c.as_str()).is_empty() {
            return MasterKeySource::ConfigFile(c);
        }
    }
    match key_file_key {
        Some(f) => {
            if !f.as_str().is_empty() {
                MasterKeySource::KeyFile(f)
            } else {
                MasterKeySource::Generate
            }
        },
        None => MasterKeySource::Generate,
    }
}

impl AppConfig {
    /// Configuration of an embedded instance from programmatic values.
    pub fn from_embedded(
        data_directory: &str,
        max_streams: usize,
        max_index_ram_mb: usize,
        max_segment_mb: usize,
        max_open_fds: usize,
        broadcast_capacity: usize,
    ) -> (c: AppConfig)
        ensures
            c.server.environment@ == "embedded"@,
            c.server.host@ == "127.0.0.1"@,
            c.server.db_port == 43121,
            c.server.webui_port == 43120,
            c.server.max_connections == 1,
            c.server.broadcast_capacity == broadcast_capacity,
            c.storage.data_directory@ == data_directory@,
            c.storage.max_segment_size_mb == max_segment_mb,
            c.storage.sync_mode@ == "always"@,
            c.storage.sync_interval_ms == 100,
            c.limits.max_concurrent_streams == max_streams,
            c.limits.max_open_file_descriptors == max_open_fds,
            c.limits.max_index_ram_mb == max_index_ram_mb,
            c.limits.max_segment_size_mb == max_segment_mb,
            c.limits.max_scan_results == 100000,
            c.security.mode@ == "none"@,
            c.security.auth_key is None,
            c.security.master_key is None,
            c.security.ztna is None,
    {
        AppConfig {
            server: ServerConfig {
                environment: owned("embedded"),
                host: owned("127.0.0.1"),
                db_port: 43121,
                webui_port: 43120,
                max_connections: 1,
                broadcast_capacity,
            },
            storage: StorageConfig {
                data_directory: owned(data_directory),
                max_segment_size_mb: max_segment_mb,
                sync_mode: owned("always"),
                sync_interval_ms: 100,
            },
            limits: LimitsConfig {
                max_concurrent_streams: max_streams,
                max_open_file_descriptors: max_open_fds,
                max_index_ram_mb,
                max_segment_size_mb: max_segment_mb,
                max_scan_results: 100000,
            },
            security: SecurityConfig {
                mode: owned("none"),
                auth_key: None,
                master_key: None,
                ztna: None,
            },
        }
    }
}


/// Configuration of an embedded instance.
pub struct LivenConfig {
    /// Maximum number of concurrent streams.
    pub max_streams: usize,
    /// Maximum in-memory index size in MB.
    pub max_index_ram_mb: usize,
    /// Maximum segment file size in MB.
    pub max_segment_mb: usize,
    /// Maximum number of cached file descriptors.
    pub max_open_fds: usize,
    /// Capacity of the channel for live subscriptions.
    pub broadcast_capacity: usize,
    /// Compaction starts after this many inactive segments.
    pub compaction_threshold_segments: usize,
    /// Compaction starts when inactive data exceeds this many bytes.
    pub compaction_threshold_bytes: u64,
    /// Most records a full scan returns.
    pub max_scan_results: usize,
    /// How long the group commit waits for more entries, in microseconds.
    pub commit_drain_window_us: u64,
    /// Most entries in one group commit.
    pub commit_max_batch_size: usize,
}

impl Default for LivenConfig {
    /// The embedded defaults: 32 streams, a 16 MB index budget, 16 MB
    /// segments, 64 cached file descriptors, a subscription channel of 4096,
    /// compaction after 4 inactive segments or 64 MB of inactive data, at
    /// most 100,000 records per full scan, and group commits that wait 5 ms
    /// for up to 2048 entries.
    fn default() -> (c: LivenConfig)
        ensures
            c.max_streams == 32,
            c.max_index_ram_mb == 16,
            c.max_segment_mb == 16,
            c.max_open_fds == 64,
            c.broadcast_capacity == 4096,
            c.compaction_threshold_segments == 4,
            c.compaction_threshold_bytes == 64 * 1024 * 1024,
            c.max_scan_results == 100_000,
            c.commit_drain_window_us == 5000,
            c.commit_max_batch_size == 2048,
    {
        LivenConfig {
            max_streams: 32,
            max_index_ram_mb: 16,
            max_segment_mb: 16,
            max_open_fds: 64,
            broadcast_capacity: 4096,
            compaction_threshold_segments: 4,
            compaction_threshold_bytes: 64 * 1024 * 1024,
            max_scan_results: 100_000,
            commit_drain_window_us: 5000,
            commit_max_batch_size: 2048,
        }
    }
}


/// The data directory: the loaded configuration's, or `./data` when no
/// configuration could be loaded.
pub fn get_data_dir(loaded: Option<&AppConfig>) -> (r: String)
    ensures
        match loaded {
            Some(c) => r@ == c.storage.data_directory@,
            None => r@ == "./data"@,
        },
{
    match loaded {
        Some(c) => c.storage.data_directory.clone(),
        None => crate::text::owned("./data"),
    }
}

/// The server's PID file: `liven.pid` in the data directory.
pub fn get_pid_file(loaded: Option<&AppConfig>) -> (r: String)
    ensures
        match loaded {
            Some(c) => r@ == c.storage.data_directory@ + "/liven.pid"@,
            None => r@ == "./data"@ + "/liven.pid"@,
        },
{
    let mut d = get_data_dir(loaded);
    d.append("/liven.pid");
    d
}

} // verus!
