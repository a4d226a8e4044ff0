//! The metadata records kept per guild, one log per entity kind, and the
//! archiver that keeps them in step with what the platform reports.

use crate::entity::{update_log, views, EntityManager, Replayable};
use crate::network::{append_cdn, request_views, DownloadRequest, CDN_URL};
use crate::utils::{create_path, decimal, push_components, strs_text, u64_text};
use crate::text::{copy_ids, copy_opt_text, opt_text, same_ids, same_opt_text};
use std::collections::HashSet;
use vstd::prelude::*;
use vstd::string::StringExecFns;

verus! {

/// The guild's own row; there is one per guild, kept under id 0.
pub struct GuildEvent {
    pub name: String,
    pub icon: Option<String>,
    pub banner: Option<String>,
    pub description: Option<String>,
    pub splash: Option<String>,
}

impl View for GuildEvent {
    type V = (Seq<char>, Option<Seq<char>>, Option<Seq<char>>, Option<Seq<char>>, Option<Seq<char>>);

    open spec fn view(&self) -> Self::V {
        (
            self.name@,
            opt_text(self.icon),
            opt_text(self.banner),
            opt_text(self.description),
            opt_text(self.splash),
        )
    }
}

impl Replayable for GuildEvent {
    open spec fn key_of(v: Self::V) -> u64 {
        0
    }

    open spec fn erases(v: Self::V) -> bool {
        false
    }

    fn id(&self) -> (r: u64) {
        0
    }

    fn is_delete(&self) -> (r: bool) {
        false
    }

    fn same_as(&self, other: &Self) -> (r: bool) {
        self.name == other.name && same_opt_text(&self.icon, &other.icon) && same_opt_text(
            &self.banner,
            &other.banner,
        ) && same_opt_text(&self.description, &other.description) && same_opt_text(
            &self.splash,
            &other.splash,
        )
    }

    fn copied(&self) -> (r: Self) {
        GuildEvent {
            name: self.name.clone(),
            icon: copy_opt_text(&self.icon),
            banner: copy_opt_text(&self.banner),
            description: copy_opt_text(&self.description),
            splash: copy_opt_text(&self.splash),
        }
    }
}

/// A member row; a row with `left_at` set is the member's tombstone.
pub struct MemberEvent {
    pub user_id: u64,
    pub username: String,
    pub global_name: Option<String>,
    pub avatar: Option<String>,
    pub joined_at: Option<u64>,
    pub left_at: Option<u64>,
    pub roles: Vec<u64>,
    pub nickname: Option<String>,
    pub bot: bool,
}

impl View for MemberEvent {
    type V = (
        u64,
        Seq<char>,
        Option<Seq<char>>,
        Option<Seq<char>>,
        Option<u64>,
        Option<u64>,
        Seq<u64>,
        Option<Seq<char>>,
        bool,
    );

    open spec fn view(&self) -> Self::V {
        (
            self.user_id,
            self.username@,
            opt_text(self.global_name),
            opt_text(self.avatar),
            self.joined_at,
            self.left_at,
            self.roles@,
            opt_text(self.nickname),
            self.bot,
        )
    }
}

impl Replayable for MemberEvent {
    open spec fn key_of(v: Self::V) -> u64 {
        v.0
    }

    open spec fn erases(v: Self::V) -> bool {
        v.5 is Some
    }

    fn id(&self) -> (r: u64) {
        self.user_id
    }

    fn is_delete(&self) -> (r: bool) {
        self.left_at.is_some()
    }

    fn same_as(&self, other: &Self) -> (r: bool) {
        self.user_id == other.user_id && self.username == other.username && same_opt_text(
            &self.global_name,
            &other.global_name,
        ) && same_opt_text(&self.avatar, &other.avatar) && self.joined_at == other.joined_at
            && self.left_at == other.left_at && same_ids(&self.roles, &other.roles)
            && same_opt_text(&self.nickname, &other.nickname) && self.bot == other.bot
    }

    fn copied(&self) -> (r: Self) {
        MemberEvent {
            user_id: self.user_id,
            username: self.username.clone(),
            global_name: copy_opt_text(&self.global_name),
            avatar: copy_opt_text(&self.avatar),
            joined_at: self.joined_at,
            left_at: self.left_at,
            roles: copy_ids(&self.roles),
            nickname: copy_opt_text(&self.nickname),
            bot: self.bot,
        }
    }
}

/// A role row; `deleted` marks the role's tombstone.
pub struct RoleEvent {
    pub role_id: u64,
    pub name: String,
    pub color: u32,
    pub position: i64,
    pub permissions: String,
    pub hoist: bool,
    pub mentionable: bool,
    pub deleted: bool,
}

impl View for RoleEvent {
    type V = (u64, Seq<char>, u32, i64, Seq<char>, bool, bool, bool);

    open spec fn view(&self) -> Self::V {
        (
            self.role_id,
            self.name@,
            self.color,
            self.position,
            self.permissions@,
            self.hoist,
            self.mentionable,
            self.deleted,
        )
    }
}

impl Replayable for RoleEvent {
    open spec fn key_of(v: Self::V) -> u64 {
        v.0
    }

    open spec fn erases(v: Self::V) -> bool {
        v.7
    }

    fn id(&self) -> (r: u64) {
        self.role_id
    }

    fn is_delete(&self) -> (r: bool) {
        self.deleted
    }

    fn same_as(&self, other: &Self) -> (r: bool) {
        self.role_id == other.role_id && self.name == other.name && self.color == other.color
            && self.position == other.position && self.permissions == other.permissions
            && self.hoist == other.hoist && self.mentionable == other.mentionable && self.deleted
            == other.deleted
    }

    fn copied(&self) -> (r: Self) {
        RoleEvent {
            role_id: self.role_id,
            name: self.name.clone(),
            color: self.color,
            position: self.position,
            permissions: self.permissions.clone(),
            hoist: self.hoist,
            mentionable: self.mentionable,
            deleted: self.deleted,
        }
    }
}

impl RoleEvent {
    /// The tombstone of role `id`.
    pub fn from_delete(id: u64) -> (r: Self)
        ensures
            r.role_id == id,
            r.name@ == Seq::<char>::empty(),
            r.color == 0,
            r.position == 0,
            r.permissions@ == seq!['0'],
            !r.hoist,
            !r.mentionable,
            r.deleted,
    {
        proof {
            reveal_strlit("0");
        }
        RoleEvent {
            role_id: id,
            name: String::new(),
            color: 0,
            position: 0,
            permissions: String::from_str("0"),
            hoist: false,
            mentionable: false,
            deleted: true,
        }
    }
}

/// The row of channel `id`'s tombstone.
pub open spec fn channel_tombstone(id: u64) -> <ChannelEvent as View>::V {
    (id, seq!['D', 'E', 'L', 'E', 'T', 'E', 'D'], None, 0, 0, None, false, true)
}

/// The row of member `id`'s tombstone, left at `now_ms`.
pub open spec fn member_tombstone(id: u64, now_ms: u64) -> <MemberEvent as View>::V {
    (id, "UNKNOWN"@, None, None, None, Some(now_ms), Seq::empty(), None, false)
}

/// The row of emoji `id`'s tombstone.
pub open spec fn emoji_tombstone(id: u64) -> <EmojiEvent as View>::V {
    (id, Seq::empty(), false, true)
}

/// The row of sticker `id`'s tombstone.
pub open spec fn sticker_tombstone(id: u64) -> <StickerEvent as View>::V {
    (id, Seq::empty(), StickerFormat::Png, true)
}

/// The tombstones of the emojis `gone`, in order.
pub open spec fn emoji_tombstones(gone: Seq<u64>) -> Seq<<EmojiEvent as View>::V> {
    gone.map_values(|id: u64| emoji_tombstone(id))
}

/// The tombstones of the stickers `gone`, in order.
pub open spec fn sticker_tombstones(gone: Seq<u64>) -> Seq<<StickerEvent as View>::V> {
    gone.map_values(|id: u64| sticker_tombstone(id))
}

/// The row of role `id`'s tombstone.
pub open spec fn role_tombstone(id: u64) -> <RoleEvent as View>::V {
    (id, Seq::empty(), 0, 0, seq!['0'], false, false, true)
}

/// A channel row; `deleted` marks the channel's tombstone.
pub struct ChannelEvent {
    pub channel_id: u64,
    pub name: String,
    pub topic: Option<String>,
    pub channel_type: u8,
    pub position: i32,
    pub parent_id: Option<u64>,
    pub nsfw: bool,
    pub deleted: bool,
}

impl View for ChannelEvent {
    type V = (u64, Seq<char>, Option<Seq<char>>, u8, i32, Option<u64>, bool, bool);

    open spec fn view(&self) -> Self::V {
        (
            self.channel_id,
            self.name@,
            opt_text(self.topic),
            self.channel_type,
            self.position,
            self.parent_id,
            self.nsfw,
            self.deleted,
        )
    }
}

impl Replayable for ChannelEvent {
    open spec fn key_of(v: Self::V) -> u64 {
        v.0
    }

    open spec fn erases(v: Self::V) -> bool {
        v.7
    }

    fn id(&self) -> (r: u64) {
        self.channel_id
    }

    fn is_delete(&self) -> (r: bool) {
        self.deleted
    }

    fn same_as(&self, other: &Self) -> (r: bool) {
        self.channel_id == other.channel_id && self.name == other.name && same_opt_text(
            &self.topic,
            &other.topic,
        ) && self.channel_type == other.channel_type && self.position == other.position
            && self.parent_id == other.parent_id && self.nsfw == other.nsfw && self.deleted
            == other.deleted
    }

    fn copied(&self) -> (r: Self) {
        ChannelEvent {
            channel_id: self.channel_id,
            name: self.name.clone(),
            topic: copy_opt_text(&self.topic),
            channel_type: self.channel_type,
            position: self.position,
            parent_id: self.parent_id,
            nsfw: self.nsfw,
            deleted: self.deleted,
        }
    }
}

impl ChannelEvent {
    /// The tombstone of channel `id`.
    pub fn from_delete(id: u64) -> (r: Self)
        ensures
            r.channel_id == id,
            r.name@ == seq!['D', 'E', 'L', 'E', 'T', 'E', 'D'],
            r.topic is None,
            r.channel_type == 0,
            r.position == 0,
            r.parent_id is None,
            !r.nsfw,
            r.deleted,
    {
        proof {
            reveal_strlit("DELETED");
        }
        ChannelEvent {
            channel_id: id,
            name: String::from_str("DELETED"),
            topic: None,
            channel_type: 0,
            position: 0,
            parent_id: None,
            nsfw: false,
            deleted: true,
        }
    }
}

/// An emoji row; `deleted` marks the emoji's tombstone.
pub struct EmojiEvent {
    pub id: u64,
    pub name: String,
    pub animated: bool,
    pub deleted: bool,
}

impl View for EmojiEvent {
    type V = (u64, Seq<char>, bool, bool);

    open spec fn view(&self) -> Self::V {
        (self.id, self.name@, self.animated, self.deleted)
    }
}

impl Replayable for EmojiEvent {
    open spec fn key_of(v: Self::V) -> u64 {
        v.0
    }

    open spec fn erases(v: Self::V) -> bool {
        v.3
    }

    fn id(&self) -> (r: u64) {
        self.id
    }

    fn is_delete(&self) -> (r: bool) {
        self.deleted
    }

    fn same_as(&self, other: &Self) -> (r: bool) {
        self.id == other.id && self.name == other.name && self.animated == other.animated
            && self.deleted == other.deleted
    }

    fn copied(&self) -> (r: Self) {
        EmojiEvent {
            id: self.id,
            name: self.name.clone(),
            animated: self.animated,
            deleted: self.deleted,
        }
    }
}

impl EmojiEvent {
    /// The tombstone of emoji `id`.
    pub fn from_delete(id: u64) -> (r: Self)
        ensures
            r.id == id,
            r.name@ == Seq::<char>::empty(),
            !r.animated,
            r.deleted,
    {
        EmojiEvent { id, name: String::new(), animated: false, deleted: true }
    }
}

/// The image format of a sticker, as the platform numbers it.
#[derive(PartialEq, Eq, Structural, Clone, Copy, Debug)]
pub enum StickerFormat {
    Png,
    Apng,
    Lottie,
    Gif,
    Unknown(u8),
}

/// A sticker row; `deleted` marks the sticker's tombstone.
pub struct StickerEvent {
    pub id: u64,
    pub name: String,
    pub format_type: StickerFormat,
    pub deleted: bool,
}

impl View for StickerEvent {
    type V = (u64, Seq<char>, StickerFormat, bool);

    open spec fn view(&self) -> Self::V {
        (self.id, self.name@, self.format_type, self.deleted)
    }
}

impl Replayable for StickerEvent {
    open spec fn key_of(v: Self::V) -> u64 {
        v.0
    }

    open spec fn erases(v: Self::V) -> bool {
        v.3
    }

    fn id(&self) -> (r: u64) {
        self.id
    }

    fn is_delete(&self) -> (r: bool) {
        self.deleted
    }

    fn same_as(&self, other: &Self) -> (r: bool) {
        self.id == other.id && self.name == other.name && self.format_type == other.format_type
            && self.deleted == other.deleted
    }

    fn copied(&self) -> (r: Self) {
        StickerEvent {
            id: self.id,
            name: self.name.clone(),
            format_type: self.format_type,
            deleted: self.deleted,
        }
    }
}

impl StickerEvent {
    /// The tombstone of sticker `id`.
    pub fn from_delete(id: u64) -> (r: Self)
        ensures
            r.id == id,
            r.name@ == Seq::<char>::empty(),
            r.format_type == StickerFormat::Png,
            r.deleted,
    {
        StickerEvent { id, name: String::new(), format_type: StickerFormat::Png, deleted: true }
    }
}

/// An image hash as the platform reports it: its text and whether the image
/// is animated.
pub struct ImageHash {
    pub hash: String,
    pub animated: bool,
}

/// A member as the platform reports it, reduced to what the archive reads.
/// `joined_at_us` is in microseconds since the Unix epoch.
pub struct MemberInfo {
    pub user_id: u64,
    pub username: String,
    pub global_name: Option<String>,
    pub member_avatar: Option<ImageHash>,
    pub user_avatar: Option<ImageHash>,
    pub joined_at_us: Option<i64>,
    pub roles: Vec<u64>,
    pub nick: Option<String>,
    pub bot: bool,
}

/// A guild as the platform reports it, reduced to what its row holds.
pub struct GuildInfo {
    pub name: String,
    pub icon: Option<ImageHash>,
    pub banner: Option<ImageHash>,
    pub description: Option<String>,
    pub splash: Option<ImageHash>,
}

/// A guild update: a partial one from a live event, or the full guild with
/// its emojis and stickers.
pub enum GuildUpdate {
    Partial(GuildInfo),
    Full { guild: GuildInfo, emojis: Vec<EmojiEvent>, stickers: Vec<StickerEvent> },
}

pub open spec fn hash_text(h: Option<ImageHash>) -> Option<Seq<char>> {
    match h {
        Some(x) => Some(x.hash@),
        None => None,
    }
}

fn hash_string(h: &Option<ImageHash>) -> (r: Option<String>)
    ensures
        opt_text(r) == hash_text(*h),
{
    match h {
        Some(x) => Some(x.hash.clone()),
        None => None,
    }
}

/// Joined-at milliseconds: the microseconds taken as unsigned, divided by
/// 1000.
pub open spec fn joined_millis(t: i64) -> u64 {
    ((if t >= 0 { t as int } else { t + 0x1_0000_0000_0000_0000int }) / 1000) as u64
}

impl GuildEvent {
    pub fn from_info(g: &GuildInfo) -> (r: GuildEvent)
        ensures
            r@ == (g.name@, hash_text(g.icon), hash_text(g.banner), opt_text(g.description), hash_text(g.splash)),
    {
        GuildEvent {
            name: g.name.clone(),
            icon: hash_string(&g.icon),
            banner: hash_string(&g.banner),
            description: copy_opt_text(&g.description),
            splash: hash_string(&g.splash),
        }
    }
}

/// The avatar a member row records: the guild-specific one if set, else
/// the user's own.
pub open spec fn member_avatar_of(m: MemberInfo) -> Option<ImageHash> {
    if m.member_avatar is Some { m.member_avatar } else { m.user_avatar }
}

/// The row recorded for a member that joined or changed.
pub open spec fn member_row(m: MemberInfo) -> <MemberEvent as View>::V {
    (
        m.user_id,
        m.username@,
        opt_text(m.global_name),
        hash_text(member_avatar_of(m)),
        match m.joined_at_us {
            Some(t) => Some(joined_millis(t)),
            None => None::<u64>,
        },
        None::<u64>,
        m.roles@,
        opt_text(m.nick),
        m.bot,
    )
}

impl MemberEvent {
    /// The row of a member that joined or changed.
    pub fn from_add_or_update(m: &MemberInfo) -> (r: MemberEvent)
        ensures
            r@ == member_row(*m),
            r.user_id == m.user_id,
            r.username@ == m.username@,
            opt_text(r.global_name) == opt_text(m.global_name),
            opt_text(r.avatar) == hash_text(member_avatar_of(*m)),
            r.joined_at == match m.joined_at_us {
                Some(t) => Some(joined_millis(t)),
                None => None::<u64>,
            },
            r.left_at is None,
            r.roles@ == m.roles@,
            opt_text(r.nickname) == opt_text(m.nick),
            r.bot == m.bot,
    {
        let avatar = if m.member_avatar.is_some() {
            hash_string(&m.member_avatar)
        } else {
            hash_string(&m.user_avatar)
        };
        let joined_at = match m.joined_at_us {
            Some(t) => {
                let u: u64 = if t >= 0 { t as u64 } else { (t as i128 + 0x1_0000_0000_0000_0000i128) as u64 };
                Some(u / 1000)
            },
            None => None,
        };
        MemberEvent {
            user_id: m.user_id,
            username: m.username.clone(),
            global_name: copy_opt_text(&m.global_name),
            avatar,
            joined_at,
            left_at: None,
            roles: copy_ids(&m.roles),
            nickname: copy_opt_text(&m.nick),
            bot: m.bot,
        }
    }
}

/// The log of a guild's entities of one kind:
/// `<guild>/metadata/<kind>.ndjson` under `data_path`.
pub open spec fn metadata_log(data_path: Seq<char>, guild_id: u64, kind: Seq<char>) -> Seq<char> {
    push_components(data_path, seq![decimal(guild_id as nat), "metadata"@, kind + ".ndjson"@])
}

/// The path of a guild's log of entities of `kind` (members, roles,
/// channels, guild, emojis or stickers).
pub fn metadata_log_path(data_path: &str, guild_id: u64, kind: &str) -> (r: String)
    ensures
        r@ == metadata_log(data_path@, guild_id, kind@),
{
    let gid = u64_text(guild_id);
    let file = crate::text::join2(kind, ".ndjson");
    let parts: [&str; 3] = [gid.as_str(), "metadata", file.as_str()];
    let r = create_path(data_path, &parts);
    proof {
        assert(strs_text(parts@) =~= seq![decimal(guild_id as nat), "metadata"@, kind@ + ".ndjson"@]);
    }
    r
}

/// The folder of a guild's assets of one kind.
pub open spec fn asset_dir(data_path: Seq<char>, guild_id: u64, kind: Seq<char>) -> Seq<char> {
    push_components(data_path, seq![decimal(guild_id as nat), "assets"@, kind])
}

/// The file extension of an image: `.gif` when animated, else `.png`.
pub open spec fn image_ext(animated: bool) -> Seq<char> {
    if animated { ".gif"@ } else { ".png"@ }
}

/// The file extension of a sticker image by its format.
pub open spec fn sticker_ext(f: StickerFormat) -> Seq<char> {
    match f {
        StickerFormat::Png => ".png"@,
        StickerFormat::Apng => ".png"@,
        StickerFormat::Lottie => ".json"@,
        StickerFormat::Gif => ".gif"@,
        StickerFormat::Unknown(_) => ".bin"@,
    }
}

pub type RequestView = (Seq<char>, Seq<char>, Seq<char>);

proof fn lemma_concat3(a: Seq<char>, b: Seq<char>, c: Seq<char>)
    ensures
        crate::network::concat_all(seq![a, b, c]) == a + b + c,
{
    reveal_with_fuel(crate::network::concat_all, 4);
    assert(seq![a, b, c].drop_last() =~= seq![a, b]);
    assert(seq![a, b].drop_last() =~= seq![a]);
    assert(seq![a].drop_last() =~= Seq::<Seq<char>>::empty());
    assert(Seq::<char>::empty() + a =~= a);
}

proof fn lemma_concat5(a: Seq<char>, b: Seq<char>, c: Seq<char>, d: Seq<char>, e: Seq<char>)
    ensures
        crate::network::concat_all(seq![a, b, c, d, e]) == a + b + c + d + e,
{
    reveal_with_fuel(crate::network::concat_all, 6);
    assert(seq![a, b, c, d, e].drop_last() =~= seq![a, b, c, d]);
    assert(seq![a, b, c, d].drop_last() =~= seq![a, b, c]);
    assert(seq![a, b, c].drop_last() =~= seq![a, b]);
    assert(seq![a, b].drop_last() =~= seq![a]);
    assert(seq![a].drop_last() =~= Seq::<Seq<char>>::empty());
    assert(Seq::<char>::empty() + a =~= a);
}

pub open spec fn emoji_request(data_path: Seq<char>, guild_id: u64, e: (u64, Seq<char>, bool, bool)) -> RequestView {
    (
        CDN_URL@ + "emojis/"@ + decimal(e.0 as nat) + image_ext(e.2),
        asset_dir(data_path, guild_id, "emojis"@),
        decimal(e.0 as nat) + image_ext(e.2),
    )
}

pub open spec fn sticker_request(data_path: Seq<char>, guild_id: u64, s: (u64, Seq<char>, StickerFormat, bool)) -> RequestView {
    (
        CDN_URL@ + "stickers/"@ + decimal(s.0 as nat) + sticker_ext(s.2),
        asset_dir(data_path, guild_id, "stickers"@),
        decimal(s.0 as nat) + sticker_ext(s.2),
    )
}

pub open spec fn avatar_request(data_path: Seq<char>, guild_id: u64, user_id: u64, h: ImageHash) -> RequestView {
    (
        CDN_URL@ + "avatars/"@ + decimal(user_id as nat) + "/"@ + h.hash@ + image_ext(h.animated),
        asset_dir(data_path, guild_id, "avatars"@),
        decimal(user_id as nat) + "_"@ + h.hash@ + image_ext(h.animated),
    )
}

/// A guild image (icon, banner or splash) of kind `kind` (its URL path
/// segment and folder) with extension `ext`.
pub open spec fn guild_image_request(data_path: Seq<char>, guild_id: u64, kind: Seq<char>, hash: Seq<char>, ext: Seq<char>) -> RequestView {
    (
        CDN_URL@ + kind + "/"@ + decimal(guild_id as nat) + "/"@ + hash + ext,
        asset_dir(data_path, guild_id, kind),
        hash + ext,
    )
}

/// The downloads that a guild's images call for: its icon and banner (GIF
/// when animated) and its splash (always PNG), for those it has.
pub open spec fn guild_asset_requests(data_path: Seq<char>, guild_id: u64, g: GuildInfo) -> Seq<RequestView> {
    let icon = match g.icon {
        Some(h) => seq![guild_image_request(data_path, guild_id, "icons"@, h.hash@, image_ext(h.animated))],
        None => Seq::empty(),
    };
    let banner = match g.banner {
        Some(h) => seq![guild_image_request(data_path, guild_id, "banners"@, h.hash@, image_ext(h.animated))],
        None => Seq::empty(),
    };
    let splash = match g.splash {
        Some(h) => seq![guild_image_request(data_path, guild_id, "splashes"@, h.hash@, ".png"@)],
        None => Seq::empty(),
    };
    icon + banner + splash
}


fn image_ext_str(animated: bool) -> (r: &'static str)
    ensures
        r@ == image_ext(animated),
{
    if animated { ".gif" } else { ".png" }
}

fn sticker_ext_str(f: StickerFormat) -> (r: &'static str)
    ensures
        r@ == sticker_ext(f),
{
    match f {
        StickerFormat::Png => ".png",
        StickerFormat::Apng => ".png",
        StickerFormat::Lottie => ".json",
        StickerFormat::Gif => ".gif",
        StickerFormat::Unknown(_) => ".bin",
    }
}

/// The metadata of one guild: six log-backed indexes (members, roles,
/// channels, the guild row, emojis, stickers) and the asset downloads their
/// changes call for. The caller appends each index's journal to its log and
/// submits the downloads.
pub struct MetadataArchiver {
    pub guild_id: u64,
    pub data_path: String,
    pub members: EntityManager<MemberEvent>,
    pub roles: EntityManager<RoleEvent>,
    pub channels: EntityManager<ChannelEvent>,
    pub guild_info: EntityManager<GuildEvent>,
    pub emojis: EntityManager<EmojiEvent>,
    pub stickers: EntityManager<StickerEvent>,
    pub downloads: Vec<DownloadRequest>,
}

impl MetadataArchiver {
    pub open spec fn wf(&self) -> bool {
        &&& self.members.wf()
        &&& self.roles.wf()
        &&& self.channels.wf()
        &&& self.guild_info.wf()
        &&& self.emojis.wf()
        &&& self.stickers.wf()
    }

    /// The downloads queued so far.
    pub open spec fn queued(&self) -> Seq<RequestView> {
        request_views(self.downloads@)
    }

    /// Opens the archive of a guild from the records of its six logs.
    pub fn new(
        guild_id: u64,
        data_path: &str,
        members: Vec<MemberEvent>,
        roles: Vec<RoleEvent>,
        channels: Vec<ChannelEvent>,
        guild_info: Vec<GuildEvent>,
        emojis: Vec<EmojiEvent>,
        stickers: Vec<StickerEvent>,
    ) -> (r: MetadataArchiver)
        ensures
            r.wf(),
            r.guild_id == guild_id,
            r.data_path@ == data_path@,
            r.members.state() == crate::entity::replay::<MemberEvent>(views(members@)),
            r.roles.state() == crate::entity::replay::<RoleEvent>(views(roles@)),
            r.channels.state() == crate::entity::replay::<ChannelEvent>(views(channels@)),
            r.guild_info.state() == crate::entity::replay::<GuildEvent>(views(guild_info@)),
            r.emojis.state() == crate::entity::replay::<EmojiEvent>(views(emojis@)),
            r.stickers.state() == crate::entity::replay::<StickerEvent>(views(stickers@)),
            r.queued() == Seq::<RequestView>::empty(),
    {
        let r = MetadataArchiver {
            guild_id,
            data_path: String::from_str(data_path),
            members: EntityManager::new(members),
            roles: EntityManager::new(roles),
            channels: EntityManager::new(channels),
            guild_info: EntityManager::new(guild_info),
            emojis: EntityManager::new(emojis),
            stickers: EntityManager::new(stickers),
            downloads: Vec::new(),
        };
        proof {
            assert(r.queued() =~= Seq::<RequestView>::empty());
        }
        r
    }

    /// The folder of this guild's assets of one kind.
    pub fn asset_path(&self, kind: &str) -> (r: String)
        ensures
            r@ == asset_dir(self.data_path@, self.guild_id, kind@),
    {
        let gid = u64_text(self.guild_id);
        let parts: [&str; 3] = [gid.as_str(), "assets", kind];
        let r = create_path(self.data_path.as_str(), &parts);
        proof {
            assert(strs_text(parts@) =~= seq![decimal(self.guild_id as nat), "assets"@, kind@]);
        }
        r
    }

    fn queue(&mut self, url: String, folder: String, filename: String)
        ensures
            final(self).queued() == old(self).queued().push((url@, folder@, filename@)),
            final(self).wf() == old(self).wf(),
            final(self).guild_id == old(self).guild_id,
            final(self).data_path == old(self).data_path,
            final(self).members == old(self).members,
            final(self).roles == old(self).roles,
            final(self).channels == old(self).channels,
            final(self).guild_info == old(self).guild_info,
            final(self).emojis == old(self).emojis,
            final(self).stickers == old(self).stickers,
    {
        let ghost before = self.queued();
        self.downloads.push(DownloadRequest { url, folder, filename });
        proof {
            assert(self.queued() =~= before.push((url@, folder@, filename@)));
        }
    }

    /// Queues the avatar of a member, if it has one.
    pub fn queue_avatar(&mut self, user_id: u64, hash: &Option<ImageHash>)
        ensures
            final(self).queued() == old(self).queued() + match *hash {
                Some(h) => seq![avatar_request(old(self).data_path@, old(self).guild_id, user_id, h)],
                None => Seq::<RequestView>::empty(),
            },
            final(self).wf() == old(self).wf(),
            final(self).guild_id == old(self).guild_id,
            final(self).data_path == old(self).data_path,
            final(self).members == old(self).members,
            final(self).roles == old(self).roles,
            final(self).channels == old(self).channels,
            final(self).guild_info == old(self).guild_info,
            final(self).emojis == old(self).emojis,
            final(self).stickers == old(self).stickers,
    {
        match hash {
            Some(h) => {
                let uid = u64_text(user_id);
                let ext = image_ext_str(h.animated);
                let parts: [&str; 5] = ["avatars/", uid.as_str(), "/", h.hash.as_str(), ext];
                let url = append_cdn(&parts);
                let folder = self.asset_path("avatars");
                let mut filename = crate::text::join3(uid.as_str(), "_", h.hash.as_str());
                filename.append(ext);
                proof {
                    reveal_strlit("avatars/");
                    reveal_strlit("/");
                    reveal_strlit("_");
                    assert(strs_text(parts@) =~= seq!["avatars/"@, uid@, "/"@, h.hash@, ext@]);
                    assert(crate::network::concat_all(seq!["avatars/"@, uid@, "/"@, h.hash@, ext@])
                        =~= "avatars/"@ + uid@ + "/"@ + h.hash@ + ext@) by {
                        reveal_with_fuel(crate::network::concat_all, 6);
                        assert(seq!["avatars/"@, uid@, "/"@, h.hash@, ext@].drop_last() =~= seq!["avatars/"@, uid@, "/"@, h.hash@]);
                        assert(seq!["avatars/"@, uid@, "/"@, h.hash@].drop_last() =~= seq!["avatars/"@, uid@, "/"@]);
                        assert(seq!["avatars/"@, uid@, "/"@].drop_last() =~= seq!["avatars/"@, uid@]);
                        assert(seq!["avatars/"@, uid@].drop_last() =~= seq!["avatars/"@]);
                        assert(seq!["avatars/"@].drop_last() =~= Seq::<Seq<char>>::empty());
                    }
                    assert(CDN_URL@ + ("avatars/"@ + uid@ + "/"@ + h.hash@ + ext@) =~= CDN_URL@ + "avatars/"@ + uid@ + "/"@ + h.hash@ + ext@);
                }
                self.queue(url, folder, filename);
            },
            None => {
                proof {
                    assert(self.queued() + Seq::<RequestView>::empty() =~= self.queued());
                }
            },
        }
    }

    /// Queues the guild's icon, banner and splash, for those it has.
    pub fn queue_guild_assets(&mut self, guild: &GuildInfo)
        ensures
            final(self).queued() == old(self).queued() + guild_asset_requests(
                old(self).data_path@,
                old(self).guild_id,
                *guild,
            ),
            final(self).wf() == old(self).wf(),
            final(self).guild_id == old(self).guild_id,
            final(self).data_path == old(self).data_path,
            final(self).members == old(self).members,
            final(self).roles == old(self).roles,
            final(self).channels == old(self).channels,
            final(self).guild_info == old(self).guild_info,
            final(self).emojis == old(self).emojis,
            final(self).stickers == old(self).stickers,
    {
        let ghost q0 = self.queued();
        let gid = u64_text(self.guild_id);
        let ghost g = *guild;
        proof {
            reveal_strlit("icons");
            reveal_strlit("banners");
            reveal_strlit("splashes");
            reveal_strlit("/");
            reveal_strlit(".png");
        }
        if let Some(icon) = &guild.icon {
            let ext = image_ext_str(icon.animated);
            let parts: [&str; 5] = ["icons", "/", gid.as_str(), "/", icon.hash.as_str()];
            let mut url = append_cdn(&parts);
            url.append(ext);
            let folder = self.asset_path("icons");
            let filename = crate::text::join2(icon.hash.as_str(), ext);
            proof {
                lemma_concat5("icons"@, "/"@, gid@, "/"@, icon.hash@);
                assert(strs_text(parts@) =~= seq!["icons"@, "/"@, gid@, "/"@, icon.hash@]);
                assert(url@ =~= CDN_URL@ + "icons"@ + "/"@ + gid@ + "/"@ + icon.hash@ + ext@);
            }
            self.queue(url, folder, filename);
        }
        if let Some(banner) = &guild.banner {
            let ext = image_ext_str(banner.animated);
            let parts: [&str; 5] = ["banners", "/", gid.as_str(), "/", banner.hash.as_str()];
            let mut url = append_cdn(&parts);
            url.append(ext);
            let folder = self.asset_path("banners");
            let filename = crate::text::join2(banner.hash.as_str(), ext);
            proof {
                lemma_concat5("banners"@, "/"@, gid@, "/"@, banner.hash@);
                assert(strs_text(parts@) =~= seq!["banners"@, "/"@, gid@, "/"@, banner.hash@]);
                assert(url@ =~= CDN_URL@ + "banners"@ + "/"@ + gid@ + "/"@ + banner.hash@ + ext@);
            }
            self.queue(url, folder, filename);
        }
        if let Some(splash) = &guild.splash {
            let parts: [&str; 5] = ["splashes", "/", gid.as_str(), "/", splash.hash.as_str()];
            let mut url = append_cdn(&parts);
            url.append(".png");
            let folder = self.asset_path("splashes");
            let filename = crate::text::join2(splash.hash.as_str(), ".png");
            proof {
                lemma_concat5("splashes"@, "/"@, gid@, "/"@, splash.hash@);
                assert(strs_text(parts@) =~= seq!["splashes"@, "/"@, gid@, "/"@, splash.hash@]);
                assert(url@ =~= CDN_URL@ + "splashes"@ + "/"@ + gid@ + "/"@ + splash.hash@ + ".png"@);
            }
            self.queue(url, folder, filename);
        }
        proof {
            assert(self.queued() =~= q0 + guild_asset_requests(self.data_path@, self.guild_id, g));
        }
    }

    /// Brings the emoji index in line with the guild's full emoji list and
    /// queues the image of every emoji that was new or changed.
    pub fn sync_emojis(&mut self, emojis: Vec<EmojiEvent>)
        requires
            old(self).wf(),
        ensures
            final(self).wf(),
            final(self).emojis.state() == crate::entity::reconciled::<EmojiEvent>(
                old(self).emojis.state(),
                views(emojis@),
            ),
            final(self).queued() == old(self).queued() + update_log::<EmojiEvent>(
                old(self).emojis.state(),
                views(emojis@),
            ).map_values(|v: (u64, Seq<char>, bool, bool)| emoji_request(old(self).data_path@, old(self).guild_id, v)),
            final(self).guild_id == old(self).guild_id,
            final(self).data_path == old(self).data_path,
            final(self).members == old(self).members,
            final(self).roles == old(self).roles,
            final(self).channels == old(self).channels,
            final(self).guild_info == old(self).guild_info,
            final(self).stickers == old(self).stickers,
            exists|gone: Seq<u64>|
                {
                    &&& gone.no_duplicates()
                    &&& gone.to_set() == old(self).emojis.state().dom() - crate::entity::keys_of::<EmojiEvent>(
                        views(emojis@),
                    )
                    &&& final(self).emojis.journal() == old(self).emojis.journal() + update_log::<EmojiEvent>(
                        old(self).emojis.state(),
                        views(emojis@),
                    ) + emoji_tombstones(gone)
                },
    {
        let ghost j0 = self.emojis.journal();
        let ghost s0 = self.emojis.state();
        let ghost q0 = self.queued();
        let ghost xs = views(emojis@);
        let n = emojis.len();
        let mut reqs: Vec<DownloadRequest> = Vec::new();
        let mut i: usize = 0;
        proof {
            reveal_strlit("emojis/");
            reveal_strlit("emojis");
        }
        while i < n
            invariant
                i <= n == emojis@.len(),
                reqs@.len() == i,
                forall|j: int| 0 <= j < i ==> (#[trigger] reqs@[j])@ == emoji_request(self.data_path@, self.guild_id, emojis@[j]@),
            decreases n - i,
        {
            let e = &emojis[i];
            let id = u64_text(e.id);
            let ext = image_ext_str(e.animated);
            let parts: [&str; 3] = ["emojis/", id.as_str(), ext];
            let url = append_cdn(&parts);
            let folder = self.asset_path("emojis");
            let filename = crate::text::join2(id.as_str(), ext);
            proof {
                lemma_concat3("emojis/"@, id@, ext@);
                assert(strs_text(parts@) =~= seq!["emojis/"@, id@, ext@]);
                assert(url@ =~= CDN_URL@ + "emojis/"@ + id@ + ext@);
            }
            reqs.push(DownloadRequest { url, folder, filename });
            i = i + 1;
        }
        let tomb_of = |id: u64| -> (t: EmojiEvent)
            ensures
                t@ == emoji_tombstone(id),
            {
                EmojiEvent::from_delete(id)
            };
        let flags = self.emojis.sync(emojis, tomb_of);
        let ghost j1 = self.emojis.journal();
        let ghost mut gone: Seq<u64> = Seq::empty();
        proof {
            let (g, tombs) = choose|g: Seq<u64>, tombs: Seq<EmojiEvent>|
                {
                    &&& g.no_duplicates()
                    &&& g.to_set() == s0.dom() - crate::entity::keys_of::<EmojiEvent>(xs)
                    &&& tombs.len() == g.len()
                    &&& forall|j: int|
                        0 <= j < g.len() ==> tomb_of.ensures((g[j],), #[trigger] tombs[j])
                    &&& j1 == j0 + update_log::<EmojiEvent>(s0, xs) + views(tombs)
                };
            assert forall|j: int| 0 <= j < g.len() implies views(tombs)[j] == emoji_tombstones(g)[j] by {
                assert(tomb_of.ensures((g[j],), tombs[j]));
            }
            assert(views(tombs) =~= emoji_tombstones(g));
            gone = g;
        }
        let mut k: usize = 0;
        proof {
            assert(q0 + Seq::<RequestView>::empty() =~= q0);
        }
        while k < n
            invariant
                k <= n == flags@.len() == reqs@.len() == xs.len(),
                self.wf(),
                self.emojis.state() == crate::entity::reconciled::<EmojiEvent>(s0, xs),
                self.emojis.journal() == j1,
                j1 == j0 + update_log::<EmojiEvent>(s0, xs) + emoji_tombstones(gone),
                gone.no_duplicates(),
                gone.to_set() == s0.dom() - crate::entity::keys_of::<EmojiEvent>(xs),
                forall|j: int| 0 <= j < n ==> (#[trigger] reqs@[j])@ == emoji_request(self.data_path@, self.guild_id, xs[j]),
                forall|j: int|
                    0 <= j < n ==> #[trigger] flags@[j] == crate::entity::update_changes::<EmojiEvent>(
                        crate::entity::updated::<EmojiEvent>(s0, xs.subrange(0, j)),
                        EmojiEvent::key_of(xs[j]),
                        xs[j],
                    ),
                self.queued() == q0 + update_log::<EmojiEvent>(s0, xs.subrange(0, k as int)).map_values(
                    |v: (u64, Seq<char>, bool, bool)| emoji_request(self.data_path@, self.guild_id, v)),
                self.guild_id == old(self).guild_id,
                self.data_path == old(self).data_path,
                self.members == old(self).members,
                self.roles == old(self).roles,
                self.channels == old(self).channels,
                self.guild_info == old(self).guild_info,
                self.stickers == old(self).stickers,
            decreases n - k,
        {
            proof {
                let next = xs.subrange(0, k as int + 1);
                assert(next.drop_last() =~= xs.subrange(0, k as int));
                assert(next.last() == xs[k as int]);
            }
            if flags[k] {
                let r = reqs[k].copied();
                self.queue(r.url, r.folder, r.filename);
                proof {
                    let next = xs.subrange(0, k as int + 1);
                    assert(self.queued() =~= q0 + update_log::<EmojiEvent>(s0, next).map_values(
                        |v: (u64, Seq<char>, bool, bool)| emoji_request(self.data_path@, self.guild_id, v)));
                }
            } else {
                proof {
                    let next = xs.subrange(0, k as int + 1);
                    assert(update_log::<EmojiEvent>(s0, next) == update_log::<EmojiEvent>(s0, xs.subrange(0, k as int)));
                }
            }
            k = k + 1;
        }
        proof {
            assert(xs.subrange(0, n as int) =~= xs);
        }
    }

    /// Brings the sticker index in line with the guild's full sticker list
    /// and queues the image of every sticker that was new or changed.
    pub fn sync_stickers(&mut self, stickers: Vec<StickerEvent>)
        requires
            old(self).wf(),
        ensures
            final(self).wf(),
            final(self).stickers.state() == crate::entity::reconciled::<StickerEvent>(
                old(self).stickers.state(),
                views(stickers@),
            ),
            final(self).queued() == old(self).queued() + update_log::<StickerEvent>(
                old(self).stickers.state(),
                views(stickers@),
            ).map_values(|v: (u64, Seq<char>, StickerFormat, bool)| sticker_request(old(self).data_path@, old(self).guild_id, v)),
            final(self).guild_id == old(self).guild_id,
            final(self).data_path == old(self).data_path,
            final(self).members == old(self).members,
            final(self).roles == old(self).roles,
            final(self).channels == old(self).channels,
            final(self).guild_info == old(self).guild_info,
            final(self).emojis == old(self).emojis,
            exists|gone: Seq<u64>|
                {
                    &&& gone.no_duplicates()
                    &&& gone.to_set() == old(self).stickers.state().dom() - crate::entity::keys_of::<StickerEvent>(
                        views(stickers@),
                    )
                    &&& final(self).stickers.journal() == old(self).stickers.journal() + update_log::<StickerEvent>(
                        old(self).stickers.state(),
                        views(stickers@),
                    ) + sticker_tombstones(gone)
                },
    {
        let ghost j0 = self.stickers.journal();
        let ghost s0 = self.stickers.state();
        let ghost q0 = self.queued();
        let ghost xs = views(stickers@);
        let n = stickers.len();
        let mut reqs: Vec<DownloadRequest> = Vec::new();
        let mut i: usize = 0;
        proof {
            reveal_strlit("stickers/");
            reveal_strlit("stickers");
        }
        while i < n
            invariant
                i <= n == stickers@.len(),
                reqs@.len() == i,
                forall|j: int| 0 <= j < i ==> (#[trigger] reqs@[j])@ == sticker_request(self.data_path@, self.guild_id, stickers@[j]@),
            decreases n - i,
        {
            let e = &stickers[i];
            let id = u64_text(e.id);
            let ext = sticker_ext_str(e.format_type);
            let parts: [&str; 3] = ["stickers/", id.as_str(), ext];
            let url = append_cdn(&parts);
            let folder = self.asset_path("stickers");
            let filename = crate::text::join2(id.as_str(), ext);
            proof {
                lemma_concat3("stickers/"@, id@, ext@);
                assert(strs_text(parts@) =~= seq!["stickers/"@, id@, ext@]);
                assert(url@ =~= CDN_URL@ + "stickers/"@ + id@ + ext@);
            }
            reqs.push(DownloadRequest { url, folder, filename });
            i = i + 1;
        }
        let tomb_of = |id: u64| -> (t: StickerEvent)
            ensures
                t@ == sticker_tombstone(id),
            {
                StickerEvent::from_delete(id)
            };
        let flags = self.stickers.sync(stickers, tomb_of);
        let ghost j1 = self.stickers.journal();
        let ghost mut gone: Seq<u64> = Seq::empty();
        proof {
            let (g, tombs) = choose|g: Seq<u64>, tombs: Seq<StickerEvent>|
                {
                    &&& g.no_duplicates()
                    &&& g.to_set() == s0.dom() - crate::entity::keys_of::<StickerEvent>(xs)
                    &&& tombs.len() == g.len()
                    &&& forall|j: int|
                        0 <= j < g.len() ==> tomb_of.ensures((g[j],), #[trigger] tombs[j])
                    &&& j1 == j0 + update_log::<StickerEvent>(s0, xs) + views(tombs)
                };
            assert forall|j: int| 0 <= j < g.len() implies views(tombs)[j] == sticker_tombstones(g)[j] by {
                assert(tomb_of.ensures((g[j],), tombs[j]));
            }
            assert(views(tombs) =~= sticker_tombstones(g));
            gone = g;
        }
        let mut k: usize = 0;
        proof {
            assert(q0 + Seq::<RequestView>::empty() =~= q0);
        }
        while k < n
            invariant
                k <= n == flags@.len() == reqs@.len() == xs.len(),
                self.wf(),
                self.stickers.state() == crate::entity::reconciled::<StickerEvent>(s0, xs),
                self.stickers.journal() == j1,
                j1 == j0 + update_log::<StickerEvent>(s0, xs) + sticker_tombstones(gone),
                gone.no_duplicates(),
                gone.to_set() == s0.dom() - crate::entity::keys_of::<StickerEvent>(xs),
                forall|j: int| 0 <= j < n ==> (#[trigger] reqs@[j])@ == sticker_request(self.data_path@, self.guild_id, xs[j]),
                forall|j: int|
                    0 <= j < n ==> #[trigger] flags@[j] == crate::entity::update_changes::<StickerEvent>(
                        crate::entity::updated::<StickerEvent>(s0, xs.subrange(0, j)),
                        StickerEvent::key_of(xs[j]),
                        xs[j],
                    ),
                self.queued() == q0 + update_log::<StickerEvent>(s0, xs.subrange(0, k as int)).map_values(
                    |v: (u64, Seq<char>, StickerFormat, bool)| sticker_request(self.data_path@, self.guild_id, v)),
                self.guild_id == old(self).guild_id,
                self.data_path == old(self).data_path,
                self.members == old(self).members,
                self.roles == old(self).roles,
                self.channels == old(self).channels,
                self.guild_info == old(self).guild_info,
                self.emojis == old(self).emojis,
            decreases n - k,
        {
            proof {
                let next = xs.subrange(0, k as int + 1);
                assert(next.drop_last() =~= xs.subrange(0, k as int));
                assert(next.last() == xs[k as int]);
            }
            if flags[k] {
                let r = reqs[k].copied();
                self.queue(r.url, r.folder, r.filename);
                proof {
                    let next = xs.subrange(0, k as int + 1);
                    assert(self.queued() =~= q0 + update_log::<StickerEvent>(s0, next).map_values(
                        |v: (u64, Seq<char>, StickerFormat, bool)| sticker_request(self.data_path@, self.guild_id, v)));
                }
            } else {
                proof {
                    let next = xs.subrange(0, k as int + 1);
                    assert(update_log::<StickerEvent>(s0, next) == update_log::<StickerEvent>(s0, xs.subrange(0, k as int)));
                }
            }
            k = k + 1;
        }
        proof {
            assert(xs.subrange(0, n as int) =~= xs);
        }
    }

    /// A guild update: the guild row is upserted; a full update that
    /// changed it queues the guild's images, and any full update syncs the
    /// emojis and stickers it carries.
    pub fn process_guild_update(&mut self, update: GuildUpdate)
        requires
            old(self).wf(),
        ensures
            final(self).wf(),
            ({
                let (g, full) = match update {
                    GuildUpdate::Partial(g) => (g, false),
                    GuildUpdate::Full { guild, .. } => (guild, true),
                };
                let row = (g.name@, hash_text(g.icon), hash_text(g.banner), opt_text(g.description), hash_text(g.splash));
                let changed = crate::entity::update_changes::<GuildEvent>(old(self).guild_info.state(), 0, row);
                &&& final(self).guild_info.state() == if changed {
                    old(self).guild_info.state().insert(0, row)
                } else {
                    old(self).guild_info.state()
                }
                &&& final(self).guild_info.journal() == old(self).guild_info.journal() + if changed {
                    seq![row]
                } else {
                    Seq::empty()
                }
                &&& !full ==> final(self).queued() == old(self).queued()
                &&& update matches GuildUpdate::Full { guild, emojis, stickers } ==> {
                    &&& final(self).queued() == old(self).queued() + (if changed {
                        guild_asset_requests(old(self).data_path@, old(self).guild_id, guild)
                    } else {
                        Seq::<RequestView>::empty()
                    }) + update_log::<EmojiEvent>(old(self).emojis.state(), views(emojis@)).map_values(
                        |v: (u64, Seq<char>, bool, bool)| emoji_request(old(self).data_path@, old(self).guild_id, v))
                        + update_log::<StickerEvent>(old(self).stickers.state(), views(stickers@)).map_values(
                        |v: (u64, Seq<char>, StickerFormat, bool)| sticker_request(old(self).data_path@, old(self).guild_id, v))
                    &&& final(self).emojis.state() == crate::entity::reconciled::<EmojiEvent>(old(self).emojis.state(), views(emojis@))
                    &&& final(self).stickers.state() == crate::entity::reconciled::<StickerEvent>(old(self).stickers.state(), views(stickers@))
                    &&& exists|gone: Seq<u64>|
                        {
                            &&& gone.no_duplicates()
                            &&& gone.to_set() == old(self).emojis.state().dom() - crate::entity::keys_of::<EmojiEvent>(views(emojis@))
                            &&& final(self).emojis.journal() == old(self).emojis.journal() + update_log::<EmojiEvent>(
                                old(self).emojis.state(),
                                views(emojis@),
                            ) + emoji_tombstones(gone)
                        }
                    &&& exists|gone: Seq<u64>|
                        {
                            &&& gone.no_duplicates()
                            &&& gone.to_set() == old(self).stickers.state().dom() - crate::entity::keys_of::<StickerEvent>(views(stickers@))
                            &&& final(self).stickers.journal() == old(self).stickers.journal() + update_log::<StickerEvent>(
                                old(self).stickers.state(),
                                views(stickers@),
                            ) + sticker_tombstones(gone)
                        }
                }
                &&& !full ==> final(self).emojis == old(self).emojis && final(self).stickers == old(self).stickers
            }),
            final(self).guild_id == old(self).guild_id,
            final(self).data_path == old(self).data_path,
            final(self).members == old(self).members,
            final(self).roles == old(self).roles,
            final(self).channels == old(self).channels,
    {
        match update {
            GuildUpdate::Partial(g) => {
                let row = GuildEvent::from_info(&g);
                let ghost j0 = self.guild_info.journal();
                let _ = self.guild_info.handle_update(0, row);
                proof {
                    assert(j0 + Seq::<<GuildEvent as View>::V>::empty() =~= j0);
                }
            },
            GuildUpdate::Full { guild, emojis, stickers } => {
                let ghost q0 = self.queued();
                let row = GuildEvent::from_info(&guild);
                let ghost j0 = self.guild_info.journal();
                let changed = self.guild_info.handle_update(0, row);
                proof {
                    assert(j0 + Seq::<<GuildEvent as View>::V>::empty() =~= j0);
                }
                if changed {
                    self.queue_guild_assets(&guild);
                } else {
                    proof {
                        assert(self.queued() =~= q0 + Seq::<RequestView>::empty());
                    }
                }
                self.sync_emojis(emojis);
                self.sync_stickers(stickers);
            },
        }
    }

    pub fn process_channel_update(&mut self, channel: ChannelEvent)
        requires
            old(self).wf(),
        ensures
            final(self).wf(),
            final(self).channels.state() == if crate::entity::update_changes::<ChannelEvent>(
                old(self).channels.state(),
                channel.channel_id,
                channel@,
            ) {
                old(self).channels.state().insert(channel.channel_id, channel@)
            } else {
                old(self).channels.state()
            },
            final(self).channels.journal() == old(self).channels.journal() + if crate::entity::update_changes::<ChannelEvent>(
                old(self).channels.state(),
                channel.channel_id,
                channel@,
            ) {
                seq![channel@]
            } else {
                Seq::empty()
            },
    {
        let id = channel.channel_id;
        let ghost j0 = self.channels.journal();
        if !self.channels.handle_update(id, channel) {
            proof {
                assert(j0 + Seq::<<ChannelEvent as View>::V>::empty() =~= j0);
            }
        }
    }

    pub fn process_channel_delete(&mut self, channel_id: u64)
        requires
            old(self).wf(),
        ensures
            final(self).wf(),
            final(self).channels.state() == old(self).channels.state().remove(channel_id),
            final(self).channels.journal() == old(self).channels.journal() + if old(self).channels.state().contains_key(channel_id) {
                seq![channel_tombstone(channel_id)]
            } else {
                Seq::empty()
            },
    {
        proof {
            reveal_strlit("DELETED");
            assert("DELETED"@ =~= seq!['D', 'E', 'L', 'E', 'T', 'E', 'D']);
        }
        let ghost j0 = self.channels.journal();
        let removed = self.channels.handle_delete(channel_id, || -> (t: ChannelEvent)
            ensures
                t@ == channel_tombstone(channel_id),
            {
                ChannelEvent::from_delete(channel_id)
            });
        if !removed {
            proof {
                assert(old(self).channels.state().remove(channel_id) =~= old(self).channels.state());
                assert(j0 + Seq::<<ChannelEvent as View>::V>::empty() =~= j0);
            }
        }
    }

    pub fn process_role_update(&mut self, role: RoleEvent)
        requires
            old(self).wf(),
        ensures
            final(self).wf(),
            final(self).roles.state() == if crate::entity::update_changes::<RoleEvent>(
                old(self).roles.state(),
                role.role_id,
                role@,
            ) {
                old(self).roles.state().insert(role.role_id, role@)
            } else {
                old(self).roles.state()
            },
            final(self).roles.journal() == old(self).roles.journal() + if crate::entity::update_changes::<RoleEvent>(
                old(self).roles.state(),
                role.role_id,
                role@,
            ) {
                seq![role@]
            } else {
                Seq::empty()
            },
    {
        let id = role.role_id;
        let ghost j0 = self.roles.journal();
        if !self.roles.handle_update(id, role) {
            proof {
                assert(j0 + Seq::<<RoleEvent as View>::V>::empty() =~= j0);
            }
        }
    }

    pub fn process_role_delete(&mut self, role_id: u64)
        requires
            old(self).wf(),
        ensures
            final(self).wf(),
            final(self).roles.state() == old(self).roles.state().remove(role_id),
            final(self).roles.journal() == old(self).roles.journal() + if old(self).roles.state().contains_key(role_id) {
                seq![role_tombstone(role_id)]
            } else {
                Seq::empty()
            },
    {
        let ghost j0 = self.roles.journal();
        let removed = self.roles.handle_delete(role_id, || -> (t: RoleEvent)
            ensures
                t@ == role_tombstone(role_id),
            {
                RoleEvent::from_delete(role_id)
            });
        if !removed {
            proof {
                assert(old(self).roles.state().remove(role_id) =~= old(self).roles.state());
                assert(j0 + Seq::<<RoleEvent as View>::V>::empty() =~= j0);
            }
        }
    }

    /// A member joined or changed: its row is upserted, and if that changed
    /// the index, its avatar is queued.
    pub fn process_member_update(&mut self, member: &MemberInfo)
        requires
            old(self).wf(),
        ensures
            final(self).wf(),
            ({
                let changed = crate::entity::update_changes::<MemberEvent>(
                    old(self).members.state(),
                    member.user_id,
                    member_row(*member),
                );
                &&& final(self).members.state() == if changed {
                    old(self).members.state().insert(member.user_id, member_row(*member))
                } else {
                    old(self).members.state()
                }
                &&& final(self).members.journal() == old(self).members.journal() + if changed {
                    seq![member_row(*member)]
                } else {
                    Seq::empty()
                }
                &&& final(self).queued() == old(self).queued() + if changed {
                    match member_avatar_of(*member) {
                        Some(h) => seq![avatar_request(old(self).data_path@, old(self).guild_id, member.user_id, h)],
                        None => Seq::<RequestView>::empty(),
                    }
                } else {
                    Seq::<RequestView>::empty()
                }
            }),
            final(self).guild_id == old(self).guild_id,
            final(self).data_path == old(self).data_path,
    {
        let row = MemberEvent::from_add_or_update(member);
        if self.members.handle_update(member.user_id, row) {
            if member.member_avatar.is_some() {
                self.queue_avatar(member.user_id, &member.member_avatar);
            } else {
                self.queue_avatar(member.user_id, &member.user_avatar);
            }
        } else {
            proof {
                assert(self.queued() =~= old(self).queued() + Seq::<RequestView>::empty());
                assert(self.members.journal() =~= old(self).members.journal() + Seq::<<MemberEvent as View>::V>::empty());
            }
        }
    }

    /// A member left: if the index holds it, a tombstone row (left at
    /// `now_ms`, name "UNKNOWN") is journaled and the member erased.
    pub fn process_member_remove(&mut self, user_id: u64, now_ms: u64)
        requires
            old(self).wf(),
        ensures
            final(self).wf(),
            final(self).members.state() == old(self).members.state().remove(user_id),
            final(self).members.journal() == old(self).members.journal() + if old(self).members.state().contains_key(user_id) {
                seq![member_tombstone(user_id, now_ms)]
            } else {
                Seq::empty()
            },
            final(self).guild_id == old(self).guild_id,
            final(self).data_path == old(self).data_path,
            final(self).queued() == old(self).queued(),
    {
        let ghost j0 = self.members.journal();
        let removed = self.members.handle_delete(user_id, || -> (t: MemberEvent)
            ensures
                t@ == member_tombstone(user_id, now_ms),
            {
                MemberEvent {
                    user_id,
                    username: String::from_str("UNKNOWN"),
                    global_name: None,
                    avatar: None,
                    joined_at: None,
                    left_at: Some(now_ms),
                    roles: Vec::new(),
                    nickname: None,
                    bot: false,
                }
            });
        if !removed {
            proof {
                assert(old(self).members.state().remove(user_id) =~= old(self).members.state());
                assert(j0 + Seq::<<MemberEvent as View>::V>::empty() =~= j0);
            }
        }
    }
}

/// The rows of a page of members.
pub open spec fn member_rows(page: Seq<MemberInfo>) -> Seq<<MemberEvent as View>::V> {
    page.map_values(|m: MemberInfo| member_row(m))
}

/// The ids of a page of members.
pub open spec fn member_ids(page: Seq<MemberInfo>) -> Set<u64> {
    Set::new(|k: u64| exists|i: int| 0 <= i < page.len() && (#[trigger] page[i]).user_id == k)
}

pub proof fn lemma_member_ids_are_row_keys(page: Seq<MemberInfo>)
    ensures
        member_ids(page) == crate::entity::keys_of::<MemberEvent>(member_rows(page)),
{
    assert forall|k: u64| member_ids(page).contains(k) <==> crate::entity::keys_of::<MemberEvent>(
        member_rows(page),
    ).contains(k) by {
        if member_ids(page).contains(k) {
            let i = choose|i: int| 0 <= i < page.len() && (#[trigger] page[i]).user_id == k;
            assert(MemberEvent::key_of(member_rows(page)[i]) == k);
        }
        if crate::entity::keys_of::<MemberEvent>(member_rows(page)).contains(k) {
            let i = choose|i: int|
                0 <= i < member_rows(page).len() && MemberEvent::key_of(#[trigger] member_rows(page)[i]) == k;
            assert(page[i].user_id == k);
        }
    }
    assert(member_ids(page) =~= crate::entity::keys_of::<MemberEvent>(member_rows(page)));
}

/// A member sync over two pages, then the removal of every member neither
/// page listed, leaves the index that reconciling it with the whole listing
/// gives. (By the reconcile laws, syncing again with the same listing then
/// changes nothing.)
pub proof fn lemma_member_sync_reconciles(
    m: Map<u64, <MemberEvent as View>::V>,
    first: Seq<MemberInfo>,
    second: Seq<MemberInfo>,
)
    ensures
        crate::entity::updated::<MemberEvent>(
            crate::entity::updated::<MemberEvent>(m, member_rows(first)),
            member_rows(second),
        ).restrict(member_ids(first) + member_ids(second)) == crate::entity::reconciled::<MemberEvent>(
            m,
            member_rows(first + second),
        ),
{
    assert(member_rows(first + second) =~= member_rows(first) + member_rows(second));
    crate::entity::lemma_updated_concat::<MemberEvent>(m, member_rows(first), member_rows(second));
    lemma_member_ids_are_row_keys(first + second);
    assert(member_ids(first) + member_ids(second) =~= member_ids(first + second)) by {
        assert forall|k: u64| (member_ids(first) + member_ids(second)).contains(k) <==> member_ids(
            first + second,
        ).contains(k) by {
            let both = first + second;
            if member_ids(first).contains(k) {
                let i = choose|i: int| 0 <= i < first.len() && (#[trigger] first[i]).user_id == k;
                assert(both[i] == first[i]);
            }
            if member_ids(second).contains(k) {
                let i = choose|i: int| 0 <= i < second.len() && (#[trigger] second[i]).user_id == k;
                assert(both[first.len() + i] == second[i]);
            }
            if member_ids(both).contains(k) {
                let i = choose|i: int| 0 <= i < both.len() && (#[trigger] both[i]).user_id == k;
                if i < first.len() {
                    assert(first[i] == both[i]);
                } else {
                    assert(second[i - first.len()] == both[i]);
                }
            }
        }
    }
}

/// The avatar downloads that updating the index `m` with the members of
/// `page`, in order, queues: one for each member whose row changed the index
/// and who has an avatar.
pub open spec fn avatar_log(
    data_path: Seq<char>,
    guild_id: u64,
    m: Map<u64, <MemberEvent as View>::V>,
    page: Seq<MemberInfo>,
) -> Seq<RequestView>
    decreases page.len(),
{
    if page.len() == 0 {
        Seq::empty()
    } else {
        let x = page.last();
        let prev = crate::entity::updated::<MemberEvent>(m, member_rows(page.drop_last()));
        avatar_log(data_path, guild_id, m, page.drop_last()) + if crate::entity::update_changes::<
            MemberEvent,
        >(prev, x.user_id, member_row(x)) {
            match member_avatar_of(x) {
                Some(h) => seq![avatar_request(data_path, guild_id, x.user_id, h)],
                None => Seq::<RequestView>::empty(),
            }
        } else {
            Seq::<RequestView>::empty()
        }
    }
}

/// The ids of `ids` not in `seen`, in order.
pub open spec fn unseen(ids: Seq<u64>, seen: Set<u64>) -> Seq<u64>
    decreases ids.len(),
{
    if ids.len() == 0 {
        Seq::empty()
    } else {
        let r = unseen(ids.drop_last(), seen);
        if seen.contains(ids.last()) {
            r
        } else {
            r.push(ids.last())
        }
    }
}

/// The tombstones of the members `gone`, each left at `now_ms`.
pub open spec fn member_tombstones(gone: Seq<u64>, now_ms: u64) -> Seq<<MemberEvent as View>::V> {
    gone.map_values(|id: u64| member_tombstone(id, now_ms))
}

pub proof fn lemma_unseen(ids: Seq<u64>, seen: Set<u64>)
    requires
        ids.no_duplicates(),
    ensures
        unseen(ids, seen).no_duplicates(),
        unseen(ids, seen).to_set() == ids.to_set() - seen,
    decreases ids.len(),
{
    if ids.len() == 0 {
        assert(unseen(ids, seen).to_set() =~= ids.to_set() - seen);
    } else {
        let init = ids.drop_last();
        let x = ids.last();
        assert(init.no_duplicates()) by {
            assert forall|a: int, b: int| 0 <= a < b < init.len() implies init[a] != init[b] by {
                assert(ids[a] == init[a] && ids[b] == init[b]);
            }
        }
        lemma_unseen(init, seen);
        let r = unseen(init, seen);
        assert(!init.contains(x)) by {
            if init.contains(x) {
                let a = choose|a: int| 0 <= a < init.len() && init[a] == x;
                assert(ids[a] == ids[ids.len() - 1]);
            }
        }
        assert forall|k: u64| ids.contains(k) <==> (init.contains(k) || k == x) by {
            if ids.contains(k) {
                let a = choose|a: int| 0 <= a < ids.len() && ids[a] == k;
                if a < ids.len() - 1 {
                    assert(init[a] == k);
                }
            }
            if init.contains(k) {
                let a = choose|a: int| 0 <= a < init.len() && init[a] == k;
                assert(ids[a] == k);
            }
            if k == x {
                assert(ids[ids.len() - 1] == k);
            }
        }
        if seen.contains(x) {
            assert(unseen(ids, seen).to_set() =~= ids.to_set() - seen);
        } else {
            assert(!r.contains(x)) by {
                if r.contains(x) {
                    assert(r.to_set().contains(x));
                }
            }
            let r2 = r.push(x);
            assert(r2.no_duplicates()) by {
                assert forall|a: int, b: int| 0 <= a < b < r2.len() implies r2[a] != r2[b] by {
                    if b == r.len() {
                        assert(r.contains(r2[a]));
                    } else {
                        assert(r2[a] == r[a] && r2[b] == r[b]);
                    }
                }
            }
            assert forall|k: u64| r2.contains(k) <==> (r.contains(k) || k == x) by {
                if r2.contains(k) {
                    let a = choose|a: int| 0 <= a < r2.len() && r2[a] == k;
                    if a < r.len() {
                        assert(r[a] == k);
                    }
                }
                if r.contains(k) {
                    let a = choose|a: int| 0 <= a < r.len() && r[a] == k;
                    assert(r2[a] == k);
                }
                if k == x {
                    assert(r2[r.len() as int] == k);
                }
            }
            assert forall|k: u64| r2.to_set().contains(k) <==> (ids.to_set() - seen).contains(k) by {
                if r.contains(k) {
                    assert(r.to_set().contains(k));
                }
                if init.contains(k) && !seen.contains(k) {
                    assert((init.to_set() - seen).contains(k));
                    assert(r.to_set().contains(k));
                }
            }
            assert(unseen(ids, seen).to_set() =~= ids.to_set() - seen);
        }
    }
}

/// The sync of a guild's member list, page by page. The caller asks for up
/// to the fetch limit of members after `next_after()` and hands each page to
/// `on_page`, which upserts every member in it; an empty page ends the
/// listing. Once all pages are in, `finish` removes every member of the
/// index that no page listed.
pub struct MemberSync {
    after: u64,
    seen: HashSet<u64>,
    total: usize,
    done: bool,
    listed: Ghost<nat>,
}

impl MemberSync {
    pub closed spec fn after(&self) -> u64 {
        self.after
    }

    /// The members listed so far.
    pub closed spec fn seen(&self) -> Set<u64> {
        self.seen@
    }

    pub closed spec fn done(&self) -> bool {
        self.done
    }

    /// How many members the pages listed, duplicates included.
    pub closed spec fn listed(&self) -> nat {
        self.listed@
    }

    pub closed spec fn wf(&self) -> bool {
        self.total as nat == if self.listed@ <= usize::MAX {
            self.listed@
        } else {
            usize::MAX as nat
        }
    }

    pub fn new() -> (r: Self)
        ensures
            r.wf(),
            r.after() == 1,
            r.seen() == Set::<u64>::empty(),
            r.listed() == 0,
            !r.done(),
    {
        MemberSync { after: 1, seen: HashSet::new(), total: 0, done: false, listed: Ghost(0) }
    }

    /// The id to list members after, until the listing is done.
    pub fn next_after(&self) -> (r: Option<u64>)
        ensures
            r == if self.done() {
                None
            } else {
                Some(self.after())
            },
    {
        if self.done {
            None
        } else {
            Some(self.after)
        }
    }

    /// How many members the pages listed, saturating at `usize::MAX`.
    pub fn total(&self) -> (r: usize)
        requires
            self.wf(),
        ensures
            r == if self.listed() <= usize::MAX {
                self.listed()
            } else {
                usize::MAX as nat
            },
    {
        self.total
    }

    /// Takes a page of members in the platform's order (ascending ids).
    pub fn on_page(&mut self, archiver: &mut MetadataArchiver, page: Vec<MemberInfo>)
        requires
            old(self).wf(),
            old(archiver).wf(),
        ensures
            final(self).wf(),
            final(self).listed() == old(self).listed() + page@.len(),
            final(archiver).wf(),
            final(archiver).guild_id == old(archiver).guild_id,
            final(archiver).data_path == old(archiver).data_path,
            final(archiver).members.journal() == old(archiver).members.journal() + update_log::<
                MemberEvent,
            >(old(archiver).members.state(), member_rows(page@)),
            final(archiver).queued() == old(archiver).queued() + avatar_log(
                old(archiver).data_path@,
                old(archiver).guild_id,
                old(archiver).members.state(),
                page@,
            ),
            page@.len() == 0 ==> final(self).done() && final(self).seen() == old(self).seen()
                && final(archiver).members.state() == old(archiver).members.state(),
            page@.len() > 0 ==> {
                &&& final(self).done() == old(self).done()
                &&& final(self).after() == page@.last().user_id
                &&& final(self).seen() == old(self).seen() + member_ids(page@)
                &&& final(archiver).members.state() == crate::entity::updated::<MemberEvent>(
                    old(archiver).members.state(),
                    member_rows(page@),
                )
            },
    {
        let n = page.len();
        let ghost j0 = archiver.members.journal();
        let ghost q0 = archiver.queued();
        proof {
            assert(member_rows(page@.subrange(0, 0)) =~= Seq::<<MemberEvent as View>::V>::empty());
            assert(page@.subrange(0, 0) =~= Seq::<MemberInfo>::empty());
            assert(j0 + Seq::<<MemberEvent as View>::V>::empty() =~= j0);
            assert(q0 + Seq::<RequestView>::empty() =~= q0);
        }
        if n == 0 {
            self.done = true;
            proof {
                assert(member_rows(page@) =~= Seq::<<MemberEvent as View>::V>::empty());
                assert(page@ =~= Seq::<MemberInfo>::empty());
            }
            return;
        }
        self.after = page[n - 1].user_id;
        self.total = if self.total <= usize::MAX - n { self.total + n } else { usize::MAX };
        self.listed = Ghost(self.listed@ + n as nat);
        let ghost s0 = archiver.members.state();
        let ghost seen0 = self.seen@;
        let mut i: usize = 0;
        proof {
            assert(member_rows(page@.subrange(0, 0)) =~= Seq::<<MemberEvent as View>::V>::empty());
            assert(member_ids(page@.subrange(0, 0)) =~= Set::<u64>::empty());
            assert(seen0 + Set::<u64>::empty() =~= seen0);
        }
        while i < n
            invariant
                i <= n == page@.len(),
                archiver.wf(),
                archiver.guild_id == old(archiver).guild_id,
                archiver.data_path == old(archiver).data_path,
                archiver.members.state() == crate::entity::updated::<MemberEvent>(
                    s0,
                    member_rows(page@.subrange(0, i as int)),
                ),
                self.seen@ == seen0 + member_ids(page@.subrange(0, i as int)),
                archiver.members.journal() == j0 + update_log::<MemberEvent>(
                    s0,
                    member_rows(page@.subrange(0, i as int)),
                ),
                archiver.queued() == q0 + avatar_log(
                    old(archiver).data_path@,
                    old(archiver).guild_id,
                    s0,
                    page@.subrange(0, i as int),
                ),
                self.after == page@.last().user_id,
                self.done == old(self).done,
                self.wf(),
                self.listed@ == old(self).listed@ + n as nat,
            decreases n - i,
        {
            let m = &page[i];
            self.seen.insert(m.user_id);
            let ghost before = archiver.members.state();
            let ghost jb = archiver.members.journal();
            let ghost qb = archiver.queued();
            archiver.process_member_update(m);
            proof {
                let prev = page@.subrange(0, i as int);
                let next = page@.subrange(0, i as int + 1);
                assert(member_rows(next).drop_last() =~= member_rows(prev));
                assert(member_rows(next).last() == member_row(page@[i as int]));
                assert(next.drop_last() =~= prev);
                assert(next.last() == *m);
                assert(archiver.members.journal() =~= j0 + update_log::<MemberEvent>(s0, member_rows(next)));
                assert(archiver.queued() =~= q0 + avatar_log(
                    old(archiver).data_path@,
                    old(archiver).guild_id,
                    s0,
                    next,
                ));
                if !crate::entity::update_changes::<MemberEvent>(before, m.user_id, member_row(*m)) {
                    assert(before.insert(m.user_id, member_row(*m)) =~= before);
                }
                assert forall|k: u64| member_ids(next).contains(k) <==> (member_ids(prev).contains(k)
                    || k == m.user_id) by {
                    if member_ids(next).contains(k) {
                        let a = choose|a: int| 0 <= a < next.len() && (#[trigger] next[a]).user_id == k;
                        if a < i {
                            assert(prev[a] == next[a]);
                        }
                    }
                    if member_ids(prev).contains(k) {
                        let a = choose|a: int| 0 <= a < prev.len() && (#[trigger] prev[a]).user_id == k;
                        assert(next[a] == prev[a]);
                    }
                    if k == m.user_id {
                        assert(next[i as int].user_id == k);
                    }
                }
                assert(self.seen@ =~= seen0 + member_ids(next));
            }
            i = i + 1;
        }
        proof {
            assert(page@.subrange(0, n as int) =~= page@);
        }
    }

    /// After the last page: every member of the index that no page listed
    /// is removed (a tombstone row left at `now_ms`).
    pub fn finish(&self, archiver: &mut MetadataArchiver, now_ms: u64)
        requires
            old(archiver).wf(),
        ensures
            final(archiver).wf(),
            final(archiver).members.state() == old(archiver).members.state().restrict(self.seen()),
            exists|gone: Seq<u64>|
                {
                    &&& gone.no_duplicates()
                    &&& gone.to_set() == old(archiver).members.state().dom() - self.seen()
                    &&& final(archiver).members.journal() == old(archiver).members.journal()
                        + member_tombstones(gone, now_ms)
                },
            final(archiver).queued() == old(archiver).queued(),
            final(archiver).guild_id == old(archiver).guild_id,
            final(archiver).data_path == old(archiver).data_path,
    {
        let ghost s0 = archiver.members.state();
        let ghost j0 = archiver.members.journal();
        let ghost q0 = archiver.queued();
        let cached = archiver.members.ids();
        let n = cached.len();
        let mut c: usize = 0;
        while c < n
            invariant
                c <= n == cached@.len(),
                cached@.to_set() == s0.dom(),
                archiver.wf(),
                archiver.guild_id == old(archiver).guild_id,
                archiver.data_path == old(archiver).data_path,
                forall|k: u64|
                    #[trigger] archiver.members.state().contains_key(k) <==> (s0.contains_key(k) && (
                    self.seen@.contains(k) || !cached@.subrange(0, c as int).contains(k))),
                forall|k: u64|
                    #[trigger] archiver.members.state().contains_key(k) ==> archiver.members.state()[k]
                        == s0[k],
                cached@.no_duplicates(),
                archiver.members.journal() == j0 + member_tombstones(
                    unseen(cached@.subrange(0, c as int), self.seen@),
                    now_ms,
                ),
                archiver.queued() == q0,
            decreases n - c,
        {
            let id = cached[c];
            proof {
                let prev = cached@.subrange(0, c as int);
                let next = cached@.subrange(0, c as int + 1);
                assert forall|k: u64| next.contains(k) <==> (prev.contains(k) || k == id) by {
                    if next.contains(k) {
                        let a = choose|a: int| 0 <= a < next.len() && next[a] == k;
                        if a < c {
                            assert(prev[a] == k);
                        }
                    }
                    if prev.contains(k) {
                        let a = choose|a: int| 0 <= a < prev.len() && prev[a] == k;
                        assert(next[a] == k);
                    }
                    if k == id {
                        assert(next[c as int] == k);
                    }
                }
            }
            let ghost jb = archiver.members.journal();
            proof {
                let prev = cached@.subrange(0, c as int);
                let next = cached@.subrange(0, c as int + 1);
                assert(next.drop_last() =~= prev);
                assert(next.last() == id);
                assert(!prev.contains(id)) by {
                    if prev.contains(id) {
                        let a = choose|a: int| 0 <= a < prev.len() && prev[a] == id;
                        assert(cached@[a] == cached@[c as int]);
                    }
                }
                assert(cached@.contains(id)) by {
                    assert(cached@[c as int] == id);
                }
                assert(s0.contains_key(id)) by {
                    assert(cached@.to_set().contains(id));
                }
            }
            if !self.seen.contains(&id) {
                archiver.process_member_remove(id, now_ms);
                proof {
                    let prev = cached@.subrange(0, c as int);
                    let next = cached@.subrange(0, c as int + 1);
                    assert(unseen(next, self.seen@) == unseen(prev, self.seen@).push(id));
                    assert(member_tombstones(unseen(next, self.seen@), now_ms) =~= member_tombstones(
                        unseen(prev, self.seen@),
                        now_ms,
                    ).push(member_tombstone(id, now_ms)));
                    assert(archiver.members.journal() =~= j0 + member_tombstones(unseen(next, self.seen@), now_ms));
                }
            } else {
                proof {
                    let prev = cached@.subrange(0, c as int);
                    let next = cached@.subrange(0, c as int + 1);
                    assert(unseen(next, self.seen@) == unseen(prev, self.seen@));
                }
            }
            c = c + 1;
        }
        proof {
            assert(cached@.subrange(0, n as int) =~= cached@);
            assert forall|k: u64| s0.contains_key(k) implies cached@.contains(k) by {
                assert(cached@.to_set().contains(k));
            }
            assert(archiver.members.state() =~= s0.restrict(self.seen@));
            lemma_unseen(cached@, self.seen@);
            let gone = unseen(cached@, self.seen@);
            assert(gone.to_set() =~= s0.dom() - self.seen@);
        }
    }
}

} // verus!
