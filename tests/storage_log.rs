use bigbrother::storage::{
    join_records, split_records, ReverseScan, WriterAction, WriterCore, BATCH_MAX_JOINED,
    SCAN_CHUNK,
};

fn record(tag: &str, i: usize, pad: usize) -> Vec<u8> {
    let mut s = format!("{{\"ts\":1,\"t\":\"{}\",\"i\":{},\"p\":\"", tag, i);
    for _ in 0..pad {
        s.push('x');
    }
    s.push_str("\"}");
    s.into_bytes()
}

fn framed(records: &[Vec<u8>]) -> Vec<u8> {
    let mut out = Vec::new();
    for r in records {
        out.extend_from_slice(r);
        out.push(b'\n');
    }
    out
}

/// Feeds `content` to a reverse scan the way the log store reads a file.
fn scan_all(content: &[u8]) -> Vec<Vec<u8>> {
    let mut scan = ReverseScan::new(content.len() as u64);
    let mut lines = Vec::new();
    while let Some((pos, len)) = scan.next_read() {
        let chunk = &content[pos as usize..pos as usize + len];
        lines.extend(scan.feed(chunk));
    }
    if let Some(first) = scan.finish() {
        lines.push(first);
    }
    lines
}

fn tag_of(line: &[u8]) -> Option<String> {
    let text = std::str::from_utf8(line).ok()?;
    let start = text.find("\"t\":\"")? + 5;
    let end = text[start..].find('"')? + start;
    Some(text[start..end].to_string())
}

#[test]
fn split_records_skips_empty_lines_and_keeps_partial_tail() {
    let content = b"a\n\nbc\n\nd";
    let r = split_records(content);
    assert_eq!(r, vec![b"a".to_vec(), b"bc".to_vec(), b"d".to_vec()]);
}

#[test]
fn split_records_of_empty_content() {
    assert!(split_records(b"").is_empty());
    assert!(split_records(b"\n\n").is_empty());
}

#[test]
fn reverse_scan_across_chunk_boundary() {
    let mut records = Vec::new();
    for i in 0..200 {
        let tag = if i == 199 { "d" } else { "c" };
        records.push(record(tag, i, 1000));
    }
    let content = framed(&records);
    assert!(content.len() > SCAN_CHUNK);
    let lines = scan_all(&content);
    let found = lines.iter().find(|l| tag_of(l).as_deref() == Some("c")).cloned();
    assert_eq!(found, Some(records[198].clone()));
}

#[test]
fn reverse_scan_yields_records_newest_first() {
    let mut records = Vec::new();
    for i in 0..300 {
        records.push(record("c", i, (i * 37) % 700));
    }
    let mut content = framed(&records);
    content.extend_from_slice(b"\n\ntail-without-newline");
    let mut forward = split_records(&content);
    forward.reverse();
    assert_eq!(scan_all(&content), forward);
}

#[test]
fn reverse_scan_of_empty_file() {
    let mut scan = ReverseScan::new(0);
    assert!(scan.next_read().is_none());
    assert!(scan.finish().is_none());
}

#[test]
fn reverse_scan_chunk_positions() {
    let scan = ReverseScan::new(100_000);
    assert_eq!(scan.next_read(), Some((100_000 - 65_536, 65_536)));
    let scan = ReverseScan::new(10);
    assert_eq!(scan.next_read(), Some((0, 10)));
}

fn drive(core: &mut WriterCore, writes: &[Vec<u8>], file: &mut Vec<u8>) {
    for w in writes {
        match core.on_write(w) {
            WriterAction::TryReceive => {}
            WriterAction::Write(b) => file.extend_from_slice(&b),
            _ => panic!("a write never flushes"),
        }
    }
}

#[test]
fn appended_records_read_back_in_order() {
    let writes: Vec<Vec<u8>> = (0..20).map(|i| record("c", i, 3)).collect();
    let mut core = WriterCore::new();
    let mut file = Vec::new();
    drive(&mut core, &writes, &mut file);
    match core.on_flush() {
        WriterAction::WriteAndFlush(b) => file.extend_from_slice(&b),
        _ => panic!("an open batch is written before the flush"),
    }
    assert_eq!(file, framed(&writes));
    assert_eq!(split_records(&file), writes);
}

#[test]
fn batch_closes_after_joined_limit() {
    let mut core = WriterCore::new();
    let mut written = 0;
    for i in 0..=BATCH_MAX_JOINED {
        match core.on_write(b"x") {
            WriterAction::TryReceive => assert!(i < BATCH_MAX_JOINED),
            WriterAction::Write(b) => {
                assert_eq!(i, BATCH_MAX_JOINED);
                written = b.len();
            }
            _ => panic!("unexpected action"),
        }
    }
    assert_eq!(written, 2 * (BATCH_MAX_JOINED + 1));
}

#[test]
fn batch_closes_at_size_limit() {
    let mut core = WriterCore::new();
    let big = vec![b'y'; 1024 * 1024];
    match core.on_write(&big) {
        WriterAction::Write(b) => assert_eq!(b.len(), 1024 * 1024 + 1),
        _ => panic!("a batch of 1 MiB is written at once"),
    }
}

#[test]
fn idle_flush_and_empty_queue() {
    let mut core = WriterCore::new();
    assert!(matches!(core.on_flush(), WriterAction::Flush));
    assert!(matches!(core.on_write(b"abc"), WriterAction::TryReceive));
    match core.on_queue_empty() {
        WriterAction::Write(b) => assert_eq!(b, b"abc\n".to_vec()),
        _ => panic!("an open batch is written when the queue is empty"),
    }
}

#[test]
fn shutdown_while_writing_leaves_no_torn_line() {
    let writes: Vec<Vec<u8>> = (0..10_000).map(|i| record("c", i, 10)).collect();
    let mut core = WriterCore::new();
    let mut file = Vec::new();
    drive(&mut core, &writes, &mut file);
    match core.on_flush() {
        WriterAction::WriteAndFlush(b) => file.extend_from_slice(&b),
        WriterAction::Flush => {}
        _ => panic!("unexpected action"),
    }
    let lines = split_records(&file);
    assert!(lines.len() <= 10_000);
    assert_eq!(lines, writes);
    assert_eq!(*file.last().unwrap(), b'\n');
}

#[test]
fn bulk_join_matches_single_appends() {
    let recs = vec![b"one".to_vec(), b"two".to_vec(), b"three".to_vec()];
    let joined = join_records(&recs);
    assert_eq!(joined, b"one\ntwo\nthree".to_vec());
    let mut core = WriterCore::new();
    let mut file = Vec::new();
    drive(&mut core, &[joined], &mut file);
    if let WriterAction::WriteAndFlush(b) = core.on_flush() {
        file.extend_from_slice(&b);
    }
    assert_eq!(split_records(&file), recs);
    assert!(join_records(&Vec::new()).is_empty());
}
