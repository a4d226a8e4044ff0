use bigbrother::settings::{
    default_data_path, Catchup, Metadata, Network, Settings, Storage,
};
use bigbrother::storage::LogEvent;
use bigbrother::messages::ChannelArchiver;
use bigbrother::metadata::metadata_log_path;
use bigbrother::utils::{create_path, format_uptime, get_current_time_millis, remove_extension, HumanUptime};

#[test]
fn paths_under_data_dir() {
    assert_eq!(create_path("./data", &["12", "metadata", "members.ndjson"]), "./data/12/metadata/members.ndjson");
    assert_eq!(create_path("data/", &["x"]), "data/x");
    assert_eq!(create_path("", &["a", "b"]), "a/b");
}

#[test]
fn extension_removal() {
    assert_eq!(remove_extension("./data/1/messages/2.ndjson"), "./data/1/messages/2");
    assert_eq!(remove_extension("a.b.c"), "a.b");
    assert_eq!(remove_extension("dir.x/file"), "dir.x/file");
    assert_eq!(remove_extension("dir/.hidden"), "dir/.hidden");
    assert_eq!(remove_extension("noext"), "noext");
}

#[test]
fn decimal_ids_in_paths() {
    assert_eq!(metadata_log_path("./data", 0, "members"), "./data/0/metadata/members.ndjson");
    assert_eq!(metadata_log_path("d", 1234567890123, "guild"), "d/1234567890123/metadata/guild.ndjson");
    let c = ChannelArchiver::new("d", u64::MAX, 10);
    assert_eq!(c.log_path, "d/18446744073709551615/messages/10.ndjson");
}

#[test]
fn uptime_stamps() {
    assert_eq!(format_uptime(true, 0, 0), "0ms ");
    assert_eq!(format_uptime(false, 0, 5), "5ms ");
    assert_eq!(format_uptime(false, 0, 0), "0ms ");
    assert_eq!(format_uptime(false, 3, 0), "3s 0ms ");
    assert_eq!(format_uptime(false, 3, 250), "3s 250ms ");
    assert_eq!(format_uptime(false, 62, 7), "1m 2s 7ms ");
    assert_eq!(format_uptime(false, 3600, 0), "1h 0m 0s 0ms ");
    assert_eq!(format_uptime(false, 86400 + 61, 1), "0h 1m 1s 1ms ");
}

#[test]
fn clock_reads_after_epoch() {
    let ms = get_current_time_millis().unwrap();
    assert!(ms > 1_600_000_000_000);
    let _ = HumanUptime::new();
}

#[test]
fn defaults() {
    let s = Settings::default();
    assert_eq!(s.data_path, "./data");
    assert!(s.discord_token.is_empty());
    assert_eq!(s.network.timeout, 120);
    assert_eq!(s.network.download_concurrency_limit, 10);
    assert_eq!(s.catchup.messages_per_request, 100);
    assert_eq!(s.catchup.write_batch_size, 1000);
    assert_eq!(s.catchup.channel_concurrency, 4);
    assert_eq!(s.metadata.member_fetch_limit, 1000);
    assert_eq!(s.storage.autoflush_interval_ms, 60000);
    assert_eq!(default_data_path(), "./data");
    assert_eq!(Storage::default().autoflush_interval_ms, 60000);
    assert_eq!(Metadata::default().member_fetch_limit, 1000);
    assert_eq!(Network::default().timeout, 120);
    assert_eq!(Catchup::default().channel_concurrency, 4);
    let e = LogEvent { timestamp: 5, payload: "p" };
    assert_eq!((e.timestamp, e.payload), (5, "p"));
}
