use bigbrother::messages::{
    created_id, micros_to_millis, Attachment, ChannelArchiver, Message, MessageEvent, Reaction,
    ReactionData, StoredMessage,
};
use bigbrother::storage::{ReverseScan, WriterAction, WriterCore};

fn message(id: u64, attachments: Vec<Attachment>) -> Message {
    Message {
        id,
        content: format!("hello {}", id),
        timestamp_us: 1_700_000_000_123_456,
        edited_timestamp_us: None,
        author_id: 77,
        embeds: Vec::new(),
        attachments,
        sticker_ids: vec![5],
        reactions: vec![
            Reaction { emoji: ReactionData::Custom(9), count: 2 },
            Reaction { emoji: ReactionData::Unicode("👍".to_string()), count: 1 },
        ],
        reference_message_id: Some(3),
    }
}

fn att(id: u64, name: &str) -> Attachment {
    Attachment { id, filename: name.to_string(), url: format!("https://cdn.example/{}", name) }
}

#[test]
fn stored_message_keeps_the_archived_fields() {
    let mut m = message(10, vec![att(1, "a.png"), att(2, "b.txt")]);
    m.edited_timestamp_us = Some(1_700_000_001_999_999);
    let s = StoredMessage::from_message(m);
    assert_eq!(s.id, 10);
    assert_eq!(s.content, "hello 10");
    assert_eq!(s.created_at, 1_700_000_000_123);
    assert_eq!(s.edited_at, Some(1_700_000_001_999));
    assert_eq!(s.author_id, 77);
    assert_eq!(s.attachments, vec![1, 2]);
    assert_eq!(s.stickers, vec![5]);
    assert_eq!(s.reference_id, Some(3));
    assert_eq!(s.reactions.len(), 2);
    assert!(matches!(s.reactions[0], (ReactionData::Custom(9), 2)));
    assert!(matches!(&s.reactions[1], (ReactionData::Unicode(u), 1) if u == "👍"));
}

#[test]
fn millis_truncate_towards_zero() {
    assert_eq!(micros_to_millis(1999), 1);
    assert_eq!(micros_to_millis(0), 0);
    assert_eq!(micros_to_millis(-1999), u64::MAX);
    assert_eq!(micros_to_millis(-999), 0);
}

#[test]
fn channel_paths() {
    let c = ChannelArchiver::new("./data", 1, 2);
    assert_eq!(c.log_path, "./data/1/messages/2.ndjson");
    assert_eq!(c.attachment_folder, "./data/1/messages/2");
}

#[test]
fn push_message_queues_attachments() {
    let c = ChannelArchiver::new("./data", 1, 2);
    let (event, downloads) = c.push_message(message(10, vec![att(7, "cat.png")]));
    assert!(matches!(event, MessageEvent::Create { ref message } if message.id == 10));
    assert_eq!(downloads.len(), 1);
    assert_eq!(downloads[0].url, "https://cdn.example/cat.png");
    assert_eq!(downloads[0].folder, "./data/1/messages/2");
    assert_eq!(downloads[0].filename, "7_cat.png");
}

#[test]
fn bulk_push_keeps_order() {
    let c = ChannelArchiver::new("./data", 1, 2);
    let msgs = vec![message(1, vec![att(11, "x")]), message(2, vec![]), message(3, vec![att(33, "y")])];
    let (events, downloads) = c.push_messages_bulk(msgs);
    let ids: Vec<u64> = events
        .iter()
        .map(|e| match e {
            MessageEvent::Create { message } => message.id,
            _ => 0,
        })
        .collect();
    assert_eq!(ids, vec![1, 2, 3]);
    let files: Vec<&str> = downloads.iter().map(|d| d.filename.as_str()).collect();
    assert_eq!(files, vec!["11_x", "33_y"]);
}

#[test]
fn mass_delete() {
    let c = ChannelArchiver::new("./data", 1, 2);
    let (none, zero) = c.mass_delete_messages(&vec![]);
    assert!(none.is_none());
    assert_eq!(zero, 0);
    let (some, n) = c.mass_delete_messages(&vec![4, 5]);
    assert_eq!(n, 2);
    assert!(matches!(some, Some(MessageEvent::BulkDelete { ref ids }) if ids == &vec![4, 5]));
}

#[test]
fn reaction_events() {
    let c = ChannelArchiver::new("./data", 1, 2);
    assert!(matches!(
        c.add_reaction(1, 2, ReactionData::Custom(3)),
        MessageEvent::ReactionAdd { message_id: 1, user_id: 2, emoji: ReactionData::Custom(3) }
    ));
    assert!(matches!(c.remove_all_reactions(4), MessageEvent::ReactionRemoveAll { message_id: 4 }));
    assert!(matches!(c.delete_message(8), MessageEvent::Delete { id: 8 }));
}

#[test]
fn created_id_only_for_create_records() {
    assert_eq!(created_id("c", 5), Some(5));
    assert_eq!(created_id("d", 5), None);
    assert_eq!(created_id("u", 5), None);
}

#[test]
fn last_message_id_after_push() {
    let lines = vec![
        "{\"ts\":1,\"t\":\"c\",\"i\":100}",
        "{\"ts\":2,\"t\":\"d\",\"i\":100}",
        "{\"ts\":3,\"t\":\"c\",\"i\":250}",
        "{\"ts\":4,\"t\":\"ra\",\"i\":250}",
    ];
    let mut core = WriterCore::new();
    let mut file = Vec::new();
    for l in &lines {
        if let WriterAction::Write(b) = core.on_write(l.as_bytes()) {
            file.extend_from_slice(&b);
        }
    }
    if let WriterAction::WriteAndFlush(b) = core.on_flush() {
        file.extend_from_slice(&b);
    }
    let mut scan = ReverseScan::new(file.len() as u64);
    let mut found = None;
    'outer: while let Some((pos, len)) = scan.next_read() {
        let chunk = file[pos as usize..pos as usize + len].to_vec();
        for line in scan.feed(&chunk) {
            let text = String::from_utf8(line).unwrap();
            let tag = if text.contains("\"t\":\"c\"") { "c" } else { "x" };
            let id: u64 = text.rsplit(':').next().unwrap().trim_end_matches('}').parse().unwrap();
            if let Some(id) = created_id(tag, id) {
                found = Some(id);
                break 'outer;
            }
        }
    }
    assert_eq!(found, Some(250));
    assert!(found.unwrap() >= 250);
}
