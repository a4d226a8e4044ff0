//! The decisions of a guild's pipeline: which handler an inbound event goes
//! to, how a failure is classified, and what the task does after each item
//! of its queue.

use vstd::prelude::*;

verus! {

/// The kind of an I/O error, as far as classification tells kinds apart.
#[derive(PartialEq, Eq, Structural, Clone, Copy, Debug)]
pub enum IoKind {
    PermissionDenied,
    WriteZero,
    NotFound,
    Other,
}

/// What is known of a failure when it is classified.
#[derive(PartialEq, Eq, Structural, Clone, Copy, Debug)]
pub enum Failure {
    /// A record could not be encoded or decoded.
    Serialization,
    /// An I/O error, with the operating system's error code if there is one.
    Io { kind: IoKind, raw_os_error: Option<i32> },
    /// An HTTP error, with the response status if a response came back.
    Http { status: Option<u16> },
    /// Anything else.
    Other,
}

/// OS error codes that make an I/O error fatal: no space left on the
/// device, a read-only file system, a hardware I/O error.
pub const ENOSPC: i32 = 28;
pub const EROFS: i32 = 30;
pub const EIO: i32 = 5;

/// Whether no retry can fix a failure: serialization errors; I/O errors of
/// kind permission denied, write zero or not found, or with OS code ENOSPC,
/// EROFS or EIO; HTTP responses 401, 403 and 405.
pub open spec fn fatal(f: Failure) -> bool {
    match f {
        Failure::Serialization => true,
        Failure::Io { kind, raw_os_error } => kind != IoKind::Other || (raw_os_error matches Some(
            c,
        ) && (c == ENOSPC || c == EROFS || c == EIO)),
        Failure::Http { status } => status matches Some(s) && (s == 401 || s == 403 || s == 405),
        Failure::Other => false,
    }
}

/// An error of a guild task, as classified: `Recoverable` errors are
/// retried after a pause, `Fatal` ones end the task.
pub enum ProcessorError<E> {
    Recoverable(E),
    Fatal(E),
}

impl<E> ProcessorError<E> {
    /// Classifies `err`, described by `failure`.
    pub fn classify(err: E, failure: &Failure) -> (r: Self)
        ensures
            r is Fatal <==> fatal(*failure),
            r matches ProcessorError::Fatal(e) ==> e == err,
            r matches ProcessorError::Recoverable(e) ==> e == err,
    {
        let is_fatal = match failure {
            Failure::Serialization => true,
            Failure::Io { kind, raw_os_error } => match kind {
                IoKind::Other => match raw_os_error {
                    Some(c) => *c == ENOSPC || *c == EROFS || *c == EIO,
                    None => false,
                },
                _ => true,
            },
            Failure::Http { status } => match status {
                Some(s) => *s == 401 || *s == 403 || *s == 405,
                None => false,
            },
            Failure::Other => false,
        };
        if is_fatal {
            ProcessorError::Fatal(err)
        } else {
            ProcessorError::Recoverable(err)
        }
    }
}

/// Pause before the next item after a recoverable error, in milliseconds.
pub const RETRY_PAUSE_MS: u64 = 2000;

/// What a guild task does after an item of its queue.
#[derive(PartialEq, Eq, Structural, Clone, Copy, Debug)]
pub enum Next {
    /// Take the next item.
    Continue,
    /// Wait `RETRY_PAUSE_MS`, then take the next item.
    PauseThenContinue,
    /// End the task.
    Terminate,
}

/// The decision after an item: success continues; any failure of the
/// initial catchup ends the task (a partial catchup is unsafe to retry);
/// a failure of a live event ends it if fatal and pauses otherwise.
pub fn after_item(was_catchup: bool, failure: Option<Failure>) -> (r: Next)
    ensures
        failure is None ==> r == Next::Continue,
        failure matches Some(f) ==> r == if was_catchup || fatal(f) {
            Next::Terminate
        } else {
            Next::PauseThenContinue
        },
{
    match failure {
        None => Next::Continue,
        Some(f) => {
            if was_catchup {
                Next::Terminate
            } else {
                match ProcessorError::classify((), &f) {
                    ProcessorError::Fatal(_) => Next::Terminate,
                    ProcessorError::Recoverable(_) => Next::PauseThenContinue,
                }
            }
        },
    }
}

/// The kinds of inbound events a guild pipeline tells apart.
#[derive(PartialEq, Eq, Structural, Clone, Copy, Debug)]
pub enum EventKind {
    MessageCreate,
    MessageUpdate,
    MessageDelete,
    MessageDeleteBulk,
    ReactionAdd,
    ReactionRemove,
    ReactionRemoveAll,
    ReactionRemoveEmoji,
    GuildUpdate,
    GuildEmojisUpdate,
    GuildStickersUpdate,
    MemberAdd,
    MemberUpdate,
    MemberRemove,
    RoleCreate,
    RoleUpdate,
    RoleDelete,
    ChannelCreate,
    ChannelUpdate,
    ChannelDelete,
    ThreadCreate,
    ThreadUpdate,
    ThreadDelete,
    Other,
}

/// The handler an event goes to.
#[derive(PartialEq, Eq, Structural, Clone, Copy, Debug)]
pub enum Route {
    PushMessage,
    UpdateMessage,
    DeleteMessage,
    MassDeleteMessages,
    AddReaction,
    RemoveReaction,
    RemoveAllReactions,
    RemoveEmojiReactions,
    /// Upsert the guild row from the event's partial guild.
    PartialGuildUpdate,
    /// Fetch the full guild, then upsert it and sync emojis and stickers.
    FullGuildUpdate,
    MemberUpdate,
    MemberRemove,
    RoleUpdate,
    RoleDelete,
    ChannelUpdate,
    ChannelDelete,
    Ignore,
}

/// The routing table of a guild pipeline.
pub open spec fn route_of(k: EventKind) -> Route {
    match k {
        EventKind::MessageCreate => Route::PushMessage,
        EventKind::MessageUpdate => Route::UpdateMessage,
        EventKind::MessageDelete => Route::DeleteMessage,
        EventKind::MessageDeleteBulk => Route::MassDeleteMessages,
        EventKind::ReactionAdd => Route::AddReaction,
        EventKind::ReactionRemove => Route::RemoveReaction,
        EventKind::ReactionRemoveAll => Route::RemoveAllReactions,
        EventKind::ReactionRemoveEmoji => Route::RemoveEmojiReactions,
        EventKind::GuildUpdate => Route::PartialGuildUpdate,
        EventKind::GuildEmojisUpdate => Route::FullGuildUpdate,
        EventKind::GuildStickersUpdate => Route::FullGuildUpdate,
        EventKind::MemberAdd => Route::MemberUpdate,
        EventKind::MemberUpdate => Route::MemberUpdate,
        EventKind::MemberRemove => Route::MemberRemove,
        EventKind::RoleCreate => Route::RoleUpdate,
        EventKind::RoleUpdate => Route::RoleUpdate,
        EventKind::RoleDelete => Route::RoleDelete,
        EventKind::ChannelCreate => Route::ChannelUpdate,
        EventKind::ChannelUpdate => Route::ChannelUpdate,
        EventKind::ChannelDelete => Route::ChannelDelete,
        EventKind::ThreadCreate => Route::ChannelUpdate,
        EventKind::ThreadUpdate => Route::ChannelUpdate,
        EventKind::ThreadDelete => Route::ChannelDelete,
        EventKind::Other => Route::Ignore,
    }
}

/// The handler for an event of kind `k`.
pub fn route(k: EventKind) -> (r: Route)
    ensures
        r == route_of(k),
{
    match k {
        EventKind::MessageCreate => Route::PushMessage,
        EventKind::MessageUpdate => Route::UpdateMessage,
        EventKind::MessageDelete => Route::DeleteMessage,
        EventKind::MessageDeleteBulk => Route::MassDeleteMessages,
        EventKind::ReactionAdd => Route::AddReaction,
        EventKind::ReactionRemove => Route::RemoveReaction,
        EventKind::ReactionRemoveAll => Route::RemoveAllReactions,
        EventKind::ReactionRemoveEmoji => Route::RemoveEmojiReactions,
        EventKind::GuildUpdate => Route::PartialGuildUpdate,
        EventKind::GuildEmojisUpdate => Route::FullGuildUpdate,
        EventKind::GuildStickersUpdate => Route::FullGuildUpdate,
        EventKind::MemberAdd => Route::MemberUpdate,
        EventKind::MemberUpdate => Route::MemberUpdate,
        EventKind::MemberRemove => Route::MemberRemove,
        EventKind::RoleCreate => Route::RoleUpdate,
        EventKind::RoleUpdate => Route::RoleUpdate,
        EventKind::RoleDelete => Route::RoleDelete,
        EventKind::ChannelCreate => Route::ChannelUpdate,
        EventKind::ChannelUpdate => Route::ChannelUpdate,
        EventKind::ChannelDelete => Route::ChannelDelete,
        EventKind::ThreadCreate => Route::ChannelUpdate,
        EventKind::ThreadUpdate => Route::ChannelUpdate,
        EventKind::ThreadDelete => Route::ChannelDelete,
        EventKind::Other => Route::Ignore,
    }
}

} // verus!
