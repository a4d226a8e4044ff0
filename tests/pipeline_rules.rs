use bigbrother::pipeline::{after_item, route, EventKind, Failure, IoKind, Next, ProcessorError, Route};

fn is_fatal(f: Failure) -> bool {
    matches!(ProcessorError::classify("e", &f), ProcessorError::Fatal("e"))
}

#[test]
fn fatal_classification() {
    let forbidden = Failure::Http { status: Some(403) };
    let limited = Failure::Http { status: Some(429) };
    assert_eq!(after_item(false, Some(forbidden)), Next::Terminate);
    assert_eq!(after_item(false, Some(limited)), Next::PauseThenContinue);
    assert_eq!(after_item(false, Some(Failure::Serialization)), Next::Terminate);
    assert_eq!(after_item(true, Some(Failure::Serialization)), Next::Terminate);
    assert_eq!(after_item(true, Some(limited)), Next::Terminate);
    assert_eq!(after_item(false, None), Next::Continue);
    assert_eq!(after_item(true, None), Next::Continue);
}

#[test]
fn http_statuses() {
    for s in [401u16, 403, 405] {
        assert!(is_fatal(Failure::Http { status: Some(s) }));
    }
    for s in [400u16, 404, 429, 500, 502] {
        assert!(!is_fatal(Failure::Http { status: Some(s) }));
    }
    assert!(!is_fatal(Failure::Http { status: None }));
}

#[test]
fn io_kinds_and_codes() {
    for k in [IoKind::PermissionDenied, IoKind::WriteZero, IoKind::NotFound] {
        assert!(is_fatal(Failure::Io { kind: k, raw_os_error: None }));
    }
    for c in [28, 30, 5] {
        assert!(is_fatal(Failure::Io { kind: IoKind::Other, raw_os_error: Some(c) }));
    }
    for c in [31, 13, 4] {
        assert!(!is_fatal(Failure::Io { kind: IoKind::Other, raw_os_error: Some(c) }));
    }
    assert!(!is_fatal(Failure::Io { kind: IoKind::Other, raw_os_error: None }));
    assert!(!is_fatal(Failure::Other));
    assert!(matches!(ProcessorError::classify(7, &Failure::Other), ProcessorError::Recoverable(7)));
}

#[test]
fn routing_table() {
    assert_eq!(route(EventKind::MessageCreate), Route::PushMessage);
    assert_eq!(route(EventKind::MessageDeleteBulk), Route::MassDeleteMessages);
    assert_eq!(route(EventKind::GuildUpdate), Route::PartialGuildUpdate);
    assert_eq!(route(EventKind::GuildEmojisUpdate), Route::FullGuildUpdate);
    assert_eq!(route(EventKind::GuildStickersUpdate), Route::FullGuildUpdate);
    assert_eq!(route(EventKind::MemberAdd), Route::MemberUpdate);
    assert_eq!(route(EventKind::RoleCreate), Route::RoleUpdate);
    assert_eq!(route(EventKind::ThreadCreate), Route::ChannelUpdate);
    assert_eq!(route(EventKind::ThreadDelete), Route::ChannelDelete);
    assert_eq!(route(EventKind::ReactionRemoveEmoji), Route::RemoveEmojiReactions);
    assert_eq!(route(EventKind::Other), Route::Ignore);
}
