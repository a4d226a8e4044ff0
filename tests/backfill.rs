use bigbrother::catchup::{is_archivable_channel, ChannelCatchup};
use bigbrother::messages::Message;

fn msg(id: u64) -> Message {
    Message {
        id,
        content: String::new(),
        timestamp_us: 0,
        edited_timestamp_us: None,
        author_id: 1,
        embeds: Vec::new(),
        attachments: Vec::new(),
        sticker_ids: Vec::new(),
        reactions: Vec::new(),
        reference_message_id: None,
    }
}

/// The API: up to `limit` messages right after `after`, newest first.
fn api(newest: u64, after: u64, limit: u64) -> Vec<Message> {
    let first = after + 1;
    let last = std::cmp::min(newest, after + limit);
    (first..=last).rev().map(msg).collect()
}

/// Runs a backfill against the API and returns the ids written, batch by batch.
fn backfill(last_logged: Option<u64>, newest: u64) -> Vec<Vec<u64>> {
    let mut c = ChannelCatchup::new(last_logged, 100, 1000);
    let mut batches = Vec::new();
    while let Some(after) = c.next_after() {
        if let Some(batch) = c.on_page(api(newest, after, 100)) {
            batches.push(batch.iter().map(|m| m.id).collect());
        }
    }
    let rest = c.finish();
    if !rest.is_empty() {
        batches.push(rest.iter().map(|m| m.id).collect());
    }
    batches
}

#[test]
fn catchup_idempotence() {
    let x = 5000;
    let first = backfill(Some(x), x + 250);
    let written: Vec<u64> = first.concat();
    assert_eq!(written, ((x + 1)..=(x + 250)).collect::<Vec<u64>>());
    let again = backfill(Some(x + 250), x + 250);
    assert!(again.concat().is_empty());
}

#[test]
fn catchup_flushes_full_batches() {
    let mut c = ChannelCatchup::new(None, 100, 150);
    assert_eq!(c.next_after(), Some(1));
    assert!(c.on_page(api(1000, 1, 100)).is_none());
    assert_eq!(c.next_after(), Some(101));
    let batch = c.on_page(api(1000, 101, 100)).unwrap();
    assert_eq!(batch.len(), 200);
    assert_eq!(batch[0].id, 2);
    assert_eq!(batch[199].id, 201);
    assert!(!c.is_done());
    assert!(c.on_page(Vec::new()).is_none());
    assert!(c.is_done());
    assert!(c.finish().is_empty());
}

#[test]
fn short_page_ends_catchup() {
    let mut c = ChannelCatchup::new(Some(10), 100, 1000);
    assert!(c.on_page(api(15, 10, 100)).is_none());
    assert!(c.is_done());
    assert_eq!(c.next_after(), None);
    let ids: Vec<u64> = c.finish().iter().map(|m| m.id).collect();
    assert_eq!(ids, vec![11, 12, 13, 14, 15]);
}

#[test]
fn archivable_channel_types() {
    for k in [0u8, 2, 5, 10, 11, 12, 16] {
        assert!(is_archivable_channel(k));
    }
    for k in [1u8, 3, 4, 13, 14, 15] {
        assert!(!is_archivable_channel(k));
    }
}
