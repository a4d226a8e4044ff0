//! Configuration of the daemon and its defaults.

use vstd::prelude::*;
use vstd::string::StringExecFns;

verus! {

/// Everything the daemon is configured with.
pub struct Settings {
    /// Root directory of all archived data, logs and downloaded assets.
    pub data_path: String,
    /// The bot token used to authenticate with the platform.
    pub discord_token: String,
    pub network: Network,
    pub catchup: Catchup,
    pub metadata: Metadata,
    pub storage: Storage,
}

/// Historical backfill.
pub struct Catchup {
    /// Messages asked for per request (the API allows at most 100).
    pub messages_per_request: u16,
    /// Messages buffered before they are written as one batch.
    pub write_batch_size: usize,
    /// Channels backfilled at the same time.
    pub channel_concurrency: usize,
}

/// Member list sync.
pub struct Metadata {
    /// Members asked for per request (the API allows at most 1000).
    pub member_fetch_limit: u16,
}

/// Log storage.
pub struct Storage {
    /// How often log buffers are flushed to disk, in milliseconds.
    pub autoflush_interval_ms: u64,
}

/// Network access.
pub struct Network {
    /// Timeout of a request, in seconds.
    pub timeout: u64,
    /// Downloads that may run at the same time.
    pub download_concurrency_limit: usize,
}

pub fn default_data_path() -> (r: String)
    ensures
        r@ == "./data"@,
{
    String::from_str("./data")
}

pub fn default_network_timeout() -> (r: u64)
    ensures
        r == 120,
{
    120
}

pub fn default_download_concurrency() -> (r: usize)
    ensures
        r == 10,
{
    10
}

pub fn default_messages_per_request() -> (r: u16)
    ensures
        r == 100,
{
    100
}

pub fn default_write_batch_size() -> (r: usize)
    ensures
        r == 1000,
{
    1000
}

pub fn default_channel_concurrency() -> (r: usize)
    ensures
        r == 4,
{
    4
}

pub fn default_member_fetch_limit() -> (r: u16)
    ensures
        r == 1000,
{
    1000
}

pub fn default_autoflush_interval_ms() -> (r: u64)
    ensures
        r == 60000,
{
    60000
}

impl Default for Storage {
    fn default() -> (r: Self)
        ensures
            r.autoflush_interval_ms == 60000,
    {
        Storage { autoflush_interval_ms: default_autoflush_interval_ms() }
    }
}

impl Default for Catchup {
    fn default() -> (r: Self)
        ensures
            r.messages_per_request == 100,
            r.write_batch_size == 1000,
            r.channel_concurrency == 4,
    {
        Catchup {
            messages_per_request: default_messages_per_request(),
            write_batch_size: default_write_batch_size(),
            channel_concurrency: default_channel_concurrency(),
        }
    }
}

impl Default for Metadata {
    fn default() -> (r: Self)
        ensures
            r.member_fetch_limit == 1000,
    {
        Metadata { member_fetch_limit: default_member_fetch_limit() }
    }
}

impl Default for Network {
    fn default() -> (r: Self)
        ensures
            r.timeout == 120,
            r.download_concurrency_limit == 10,
    {
        Network {
            timeout: default_network_timeout(),
            download_concurrency_limit: default_download_concurrency(),
        }
    }
}

impl Default for Settings {
    fn default() -> (r: Self)
        ensures
            r.data_path@ == "./data"@,
            r.discord_token@ == Seq::<char>::empty(),
            r.network.timeout == 120,
            r.network.download_concurrency_limit == 10,
            r.catchup.messages_per_request == 100,
            r.catchup.write_batch_size == 1000,
            r.catchup.channel_concurrency == 4,
            r.metadata.member_fetch_limit == 1000,
            r.storage.autoflush_interval_ms == 60000,
    {
        Settings {
            data_path: default_data_path(),
            discord_token: String::new(),
            network: Network::default(),
            catchup: Catchup::default(),
            metadata: Metadata::default(),
            storage: Storage::default(),
        }
    }
}

} // verus!
