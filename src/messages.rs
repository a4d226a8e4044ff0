//! The per-channel message log: what is stored of a message, the events a
//! channel's log records, and the downloads its attachments need.

use crate::network::{request_views, DownloadRequest};
use crate::text::join3;
use crate::utils::{create_path, decimal, push_components, remove_extension, u64_text, without_extension};
use vstd::prelude::*;
use vstd::string::StringExecFns;

verus! {

/// Embeds are carried through to the log as the platform sent them; nothing
/// here reads them.
#[verifier::external_type_specification]
#[verifier::external_body]
pub struct ExEmbed(twilight_model::channel::message::Embed);

/// The emoji of a reaction: a custom emoji by id, or a unicode emoji.
pub enum ReactionData {
    Custom(u64),
    Unicode(String),
}

/// A file attached to a message.
pub struct Attachment {
    pub id: u64,
    pub filename: String,
    pub url: String,
}

/// One reaction on a message and how many users gave it.
pub struct Reaction {
    pub emoji: ReactionData,
    pub count: u64,
}

/// A message as the platform reports it, reduced to what the archive reads.
/// Timestamps are microseconds since the Unix epoch.
pub struct Message {
    pub id: u64,
    pub content: String,
    pub timestamp_us: i64,
    pub edited_timestamp_us: Option<i64>,
    pub author_id: u64,
    pub embeds: Vec<twilight_model::channel::message::Embed>,
    pub attachments: Vec<Attachment>,
    pub sticker_ids: Vec<u64>,
    pub reactions: Vec<Reaction>,
    pub reference_message_id: Option<u64>,
}

/// What the archive keeps of a message; timestamps are milliseconds.
pub struct StoredMessage {
    pub id: u64,
    pub content: String,
    pub created_at: u64,
    pub edited_at: Option<u64>,
    pub author_id: u64,
    pub embeds: Vec<twilight_model::channel::message::Embed>,
    pub attachments: Vec<u64>,
    pub stickers: Vec<u64>,
    pub reactions: Vec<(ReactionData, u64)>,
    pub reference_id: Option<u64>,
}

/// A record of a channel's message log.
pub enum MessageEvent {
    Create { message: StoredMessage },
    Update { message: StoredMessage },
    Delete { id: u64 },
    BulkDelete { ids: Vec<u64> },
    ReactionAdd { message_id: u64, user_id: u64, emoji: ReactionData },
    ReactionRemove { message_id: u64, user_id: u64, emoji: ReactionData },
    ReactionRemoveAll { message_id: u64 },
    ReactionRemoveEmoji { message_id: u64, emoji: ReactionData },
}

/// Milliseconds from microseconds, the quotient truncated towards zero and
/// taken as an unsigned 64-bit value.
pub open spec fn millis_of_micros(t: i64) -> u64 {
    let q: int = if t >= 0 {
        t / 1000
    } else {
        -((-t) / 1000)
    };
    (if q >= 0 {
        q
    } else {
        q + 0x1_0000_0000_0000_0000int
    }) as u64
}

pub fn micros_to_millis(t: i64) -> (r: u64)
    ensures
        r == millis_of_micros(t),
{
    if t >= 0 {
        (t as u64) / 1000
    } else {
        let q: u64 = ((0 - (t as i128)) as u64) / 1000;
        if q == 0 {
            0
        } else {
            u64::MAX - q + 1
        }
    }
}

impl ReactionData {
    pub open spec fn view_text(&self) -> (bool, u64, Seq<char>) {
        match self {
            ReactionData::Custom(id) => (true, *id, Seq::empty()),
            ReactionData::Unicode(s) => (false, 0, s@),
        }
    }

    pub fn copied(&self) -> (r: ReactionData)
        ensures
            r.view_text() == self.view_text(),
    {
        match self {
            ReactionData::Custom(id) => ReactionData::Custom(*id),
            ReactionData::Unicode(s) => ReactionData::Unicode(s.clone()),
        }
    }
}

/// The stored form of each reaction: its emoji and its count.
pub open spec fn stored_reactions(rs: Seq<Reaction>) -> Seq<((bool, u64, Seq<char>), u64)> {
    rs.map_values(|r: Reaction| (r.emoji.view_text(), r.count))
}

pub open spec fn reaction_pairs(rs: Seq<(ReactionData, u64)>) -> Seq<((bool, u64, Seq<char>), u64)> {
    rs.map_values(|p: (ReactionData, u64)| (p.0.view_text(), p.1))
}

/// The ids of attachments.
pub open spec fn attachment_ids(atts: Seq<Attachment>) -> Seq<u64> {
    atts.map_values(|a: Attachment| a.id)
}

/// `s` is what the archive keeps of `m`.
pub open spec fn stored_from(m: Message, s: StoredMessage) -> bool {
    &&& s.id == m.id
    &&& s.content@ == m.content@
    &&& s.created_at == millis_of_micros(m.timestamp_us)
    &&& s.edited_at == match m.edited_timestamp_us {
        Some(t) => Some(millis_of_micros(t)),
        None => None::<u64>,
    }
    &&& s.author_id == m.author_id
    &&& s.embeds@ == m.embeds@
    &&& s.attachments@ == attachment_ids(m.attachments@)
    &&& s.stickers@ == m.sticker_ids@
    &&& reaction_pairs(s.reactions@) == stored_reactions(m.reactions@)
    &&& s.reference_id == m.reference_message_id
}

impl StoredMessage {
    /// Reduces a message to what the archive keeps: attachments and stickers
    /// by id, reactions as emoji and count, timestamps in milliseconds.
    pub fn from_message(msg: Message) -> (r: StoredMessage)
        ensures
            r.id == msg.id,
            r.content@ == msg.content@,
            r.created_at == millis_of_micros(msg.timestamp_us),
            r.edited_at == match msg.edited_timestamp_us {
                Some(t) => Some(millis_of_micros(t)),
                None => None::<u64>,
            },
            r.author_id == msg.author_id,
            r.embeds@ == msg.embeds@,
            r.attachments@ == attachment_ids(msg.attachments@),
            r.stickers@ == msg.sticker_ids@,
            reaction_pairs(r.reactions@) == stored_reactions(msg.reactions@),
            r.reference_id == msg.reference_message_id,
            stored_from(msg, r),
    {
        let created_at = micros_to_millis(msg.timestamp_us);
        let edited_at = match msg.edited_timestamp_us {
            Some(t) => Some(micros_to_millis(t)),
            None => None,
        };
        let mut attachments: Vec<u64> = Vec::new();
        let n = msg.attachments.len();
        let mut i: usize = 0;
        while i < n
            invariant
                i <= n == msg.attachments@.len(),
                attachments@ == attachment_ids(msg.attachments@.subrange(0, i as int)),
            decreases n - i,
        {
            attachments.push(msg.attachments[i].id);
            proof {
                assert(attachment_ids(msg.attachments@.subrange(0, i as int + 1)) =~= attachment_ids(
                    msg.attachments@.subrange(0, i as int),
                ).push(msg.attachments@[i as int].id));
            }
            i = i + 1;
        }
        proof {
            assert(msg.attachments@.subrange(0, n as int) =~= msg.attachments@);
        }
        let mut reactions: Vec<(ReactionData, u64)> = Vec::new();
        let m = msg.reactions.len();
        let mut j: usize = 0;
        while j < m
            invariant
                j <= m == msg.reactions@.len(),
                reaction_pairs(reactions@) == stored_reactions(msg.reactions@.subrange(0, j as int)),
            decreases m - j,
        {
            let r = &msg.reactions[j];
            let ghost before = reaction_pairs(reactions@);
            reactions.push((r.emoji.copied(), r.count));
            proof {
                assert(reaction_pairs(reactions@) =~= before.push((r.emoji.view_text(), r.count)));
                assert(stored_reactions(msg.reactions@.subrange(0, j as int + 1)) =~= stored_reactions(
                    msg.reactions@.subrange(0, j as int),
                ).push((r.emoji.view_text(), r.count)));
            }
            j = j + 1;
        }
        proof {
            assert(msg.reactions@.subrange(0, m as int) =~= msg.reactions@);
        }
        StoredMessage {
            id: msg.id,
            content: msg.content,
            created_at,
            edited_at,
            author_id: msg.author_id,
            embeds: msg.embeds,
            attachments,
            stickers: msg.sticker_ids,
            reactions,
            reference_id: msg.reference_message_id,
        }
    }
}

/// The download of an attachment: its URL, into `folder`, as
/// `<attachment id>_<file name as uploaded>`.
pub open spec fn attachment_request(a: Attachment, folder: Seq<char>) -> (Seq<char>, Seq<char>, Seq<char>) {
    (a.url@, folder, decimal(a.id as nat) + seq!['_'] + a.filename@)
}

pub open spec fn attachment_requests(atts: Seq<Attachment>, folder: Seq<char>) -> Seq<(Seq<char>, Seq<char>, Seq<char>)> {
    atts.map_values(|a: Attachment| attachment_request(a, folder))
}


/// The downloads of the attachments of each message, in order.
pub open spec fn bulk_attachment_requests(msgs: Seq<Message>, folder: Seq<char>) -> Seq<(Seq<char>, Seq<char>, Seq<char>)>
    decreases msgs.len(),
{
    if msgs.len() == 0 {
        Seq::empty()
    } else {
        bulk_attachment_requests(msgs.drop_last(), folder) + attachment_requests(msgs.last().attachments@, folder)
    }
}

/// The path of a channel's message log under `data_path`:
/// `<guild>/messages/<channel>.ndjson`.
pub open spec fn channel_log_path(data_path: Seq<char>, guild_id: u64, channel_id: u64) -> Seq<char> {
    push_components(
        data_path,
        seq![decimal(guild_id as nat), "messages"@, decimal(channel_id as nat) + ".ndjson"@],
    )
}

/// The archive of one channel: where its log lives and the records and
/// downloads that each change of the channel produces. The caller appends
/// the records to the log at `log_path` and submits the downloads.
pub struct ChannelArchiver {
    pub channel_id: u64,
    pub log_path: String,
    pub attachment_folder: String,
}

impl ChannelArchiver {
    pub open spec fn wf(&self) -> bool {
        self.attachment_folder@ == without_extension(self.log_path@)
    }

    pub fn new(data_path: &str, guild_id: u64, channel_id: u64) -> (r: ChannelArchiver)
        ensures
            r.wf(),
            r.channel_id == channel_id,
            r.log_path@ == channel_log_path(data_path@, guild_id, channel_id),
    {
        let gid = u64_text(guild_id);
        let cid = u64_text(channel_id);
        let file = crate::text::join2(cid.as_str(), ".ndjson");
        let g = gid.as_str();
        let f = file.as_str();
        let parts: [&str; 3] = [g, "messages", f];
        let log_path = create_path(data_path, &parts);
        proof {
            reveal_strlit(".ndjson");
            reveal_strlit("messages");
            assert(crate::utils::strs_text(parts@) =~= seq![
                decimal(guild_id as nat),
                "messages"@,
                decimal(channel_id as nat) + ".ndjson"@,
            ]);
        }
        let attachment_folder = remove_extension(log_path.as_str());
        ChannelArchiver { channel_id, log_path, attachment_folder }
    }

    /// The downloads of `atts`, one per attachment, into this channel's
    /// attachment folder.
    pub fn queue_attachments(&self, atts: &Vec<Attachment>) -> (r: Vec<DownloadRequest>)
        ensures
            request_views(r@) == attachment_requests(atts@, self.attachment_folder@),
    {
        let mut r: Vec<DownloadRequest> = Vec::new();
        let n = atts.len();
        let mut i: usize = 0;
        while i < n
            invariant
                i <= n == atts@.len(),
                request_views(r@) == attachment_requests(atts@.subrange(0, i as int), self.attachment_folder@),
            decreases n - i,
        {
            let a = &atts[i];
            let id = u64_text(a.id);
            let filename = join3(id.as_str(), "_", a.filename.as_str());
            proof {
                reveal_strlit("_");
                assert("_"@ =~= seq!['_']);
            }
            let ghost before = request_views(r@);
            r.push(DownloadRequest { url: a.url.clone(), folder: self.attachment_folder.clone(), filename });
            proof {
                assert(request_views(r@) =~= before.push(attachment_request(*a, self.attachment_folder@)));
                assert(attachment_requests(atts@.subrange(0, i as int + 1), self.attachment_folder@)
                    =~= attachment_requests(atts@.subrange(0, i as int), self.attachment_folder@).push(
                    attachment_request(atts@[i as int], self.attachment_folder@),
                ));
            }
            i = i + 1;
        }
        proof {
            assert(atts@.subrange(0, n as int) =~= atts@);
        }
        r
    }

    /// A new message: its create record, and a download per attachment.
    pub fn push_message(&self, msg: Message) -> (r: (MessageEvent, Vec<DownloadRequest>))
        ensures
            r.0 matches MessageEvent::Create { message } && stored_from(msg, message),
            request_views(r.1@) == attachment_requests(msg.attachments@, self.attachment_folder@),
    {
        let downloads = self.queue_attachments(&msg.attachments);
        let message = StoredMessage::from_message(msg);
        (MessageEvent::Create { message }, downloads)
    }

    /// A batch of messages, oldest first: one create record each, in order,
    /// and a download per attachment of each.
    pub fn push_messages_bulk(&self, messages: Vec<Message>) -> (r: (Vec<MessageEvent>, Vec<DownloadRequest>))
        ensures
            r.0@.len() == messages@.len(),
            forall|i: int| 0 <= i < messages@.len() ==> ((#[trigger] r.0@[i]) matches MessageEvent::Create { message }
                && stored_from(messages@[i], message)),
            request_views(r.1@) == bulk_attachment_requests(messages@, self.attachment_folder@),
    {
        let mut events: Vec<MessageEvent> = Vec::new();
        let mut downloads: Vec<DownloadRequest> = Vec::new();
        let ghost msgs = messages@;
        let mut rest = messages;
        let n = rest.len();
        let mut k: usize = 0;
        proof {
            assert(rest@ =~= msgs.subrange(0, n as int));
            assert(request_views(downloads@) =~= Seq::<(Seq<char>, Seq<char>, Seq<char>)>::empty());
        }
        while rest.len() > 0
            invariant
                k + rest@.len() == n == msgs.len(),
                rest@ == msgs.subrange(k as int, n as int),
                events@.len() == k,
                forall|i: int| 0 <= i < k ==> ((#[trigger] events@[i]) matches MessageEvent::Create { message }
                    && stored_from(msgs[i], message)),
                request_views(downloads@) == bulk_attachment_requests(msgs.subrange(0, k as int), self.attachment_folder@),
            decreases rest@.len(),
        {
            let msg = rest.remove(0);
            proof {
                assert(msg == msgs[k as int]);
            }
            let ghost before = request_views(downloads@);
            let (event, mut more) = self.push_message(msg);
            let ghost added = request_views(more@);
            events.push(event);
            downloads.append(&mut more);
            k = k + 1;
            proof {
                assert(rest@ =~= msgs.subrange(k as int, n as int));
                assert(request_views(downloads@) =~= before + added);
                assert(msgs.subrange(0, k as int).drop_last() =~= msgs.subrange(0, k - 1));
            }
        }
        (events, downloads)
    }

    pub fn update_message(&self, msg: Message) -> (r: MessageEvent)
        ensures
            r matches MessageEvent::Update { message } && stored_from(msg, message),
    {
        MessageEvent::Update { message: StoredMessage::from_message(msg) }
    }

    pub fn delete_message(&self, message_id: u64) -> (r: MessageEvent)
        ensures
            r == (MessageEvent::Delete { id: message_id }),
    {
        MessageEvent::Delete { id: message_id }
    }

    /// A bulk delete: nothing for an empty list, else one record with all
    /// the ids. The count is the number of ids.
    pub fn mass_delete_messages(&self, ids: &Vec<u64>) -> (r: (Option<MessageEvent>, usize))
        ensures
            r.1 == ids@.len(),
            ids@.len() == 0 ==> r.0 is None,
            ids@.len() > 0 ==> (r.0 matches Some(MessageEvent::BulkDelete { ids: v }) && v@ == ids@),
    {
        if ids.len() == 0 {
            return (None, 0);
        }
        (Some(MessageEvent::BulkDelete { ids: crate::text::copy_ids(ids) }), ids.len())
    }

    pub fn add_reaction(&self, message_id: u64, user_id: u64, emoji: ReactionData) -> (r: MessageEvent)
        ensures
            r == (MessageEvent::ReactionAdd { message_id, user_id, emoji }),
    {
        MessageEvent::ReactionAdd { message_id, user_id, emoji }
    }

    pub fn remove_reaction(&self, message_id: u64, user_id: u64, emoji: ReactionData) -> (r: MessageEvent)
        ensures
            r == (MessageEvent::ReactionRemove { message_id, user_id, emoji }),
    {
        MessageEvent::ReactionRemove { message_id, user_id, emoji }
    }

    pub fn remove_all_reactions(&self, message_id: u64) -> (r: MessageEvent)
        ensures
            r == (MessageEvent::ReactionRemoveAll { message_id }),
    {
        MessageEvent::ReactionRemoveAll { message_id }
    }

    pub fn remove_emoji_reactions(&self, message_id: u64, emoji: ReactionData) -> (r: MessageEvent)
        ensures
            r == (MessageEvent::ReactionRemoveEmoji { message_id, emoji }),
    {
        MessageEvent::ReactionRemoveEmoji { message_id, emoji }
    }
}

/// The tag of a create record.
pub open spec fn create_tag() -> Seq<char> {
    seq!['c']
}

/// What a backward scan for the last message id takes from one record,
/// given the record's tag and id: the id of a create record, nothing for any
/// other record (a later delete record does not cancel an earlier create;
/// see [`newest_created`]).
pub fn created_id(tag: &str, id: u64) -> (r: Option<u64>)
    ensures
        r == if tag@ == create_tag() {
            Some(id)
        } else {
            None::<u64>
        },
{
    proof {
        reveal_strlit("c");
        assert("c"@ =~= create_tag());
    }
    let c = String::from_str("c");
    let t = String::from_str(tag);
    if t == c {
        Some(id)
    } else {
        None
    }
}

/// The id of the newest create record among (tag, id) frames in log order:
/// what a backward scan that stops at the first create record finds.
///
/// Deletes do not hide a create record: after a message is deleted, its
/// create record is still the newest one and its id is still found. That is
/// what the backfill needs as its lower bound, the last message observed,
/// whether or not it still exists.
pub open spec fn newest_created(frames: Seq<(Seq<char>, u64)>) -> Option<u64>
    decreases frames.len(),
{
    if frames.len() == 0 {
        None
    } else if frames.last().0 == create_tag() {
        Some(frames.last().1)
    } else {
        newest_created(frames.drop_last())
    }
}

/// After a message is pushed, the last message id of its channel is that
/// message's id (so at least it).
pub proof fn lemma_last_id_after_push(frames: Seq<(Seq<char>, u64)>, id: u64)
    ensures
        newest_created(frames.push((create_tag(), id))) == Some(id),
{
    assert(frames.push((create_tag(), id)).last() == (create_tag(), id));
}

} // verus!
