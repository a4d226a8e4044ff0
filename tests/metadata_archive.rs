use bigbrother::metadata::{
    EmojiEvent, GuildInfo, GuildUpdate, ImageHash, MemberEvent, MemberInfo, MemberSync,
    MetadataArchiver, StickerEvent, StickerFormat,
};

fn member(id: u64) -> MemberInfo {
    MemberInfo {
        user_id: id,
        username: format!("user{}", id),
        global_name: None,
        member_avatar: None,
        user_avatar: None,
        joined_at_us: Some(1_700_000_000_000_000),
        roles: vec![10, 11],
        nick: None,
        bot: false,
    }
}

fn archiver(members: Vec<MemberEvent>) -> MetadataArchiver {
    MetadataArchiver::new(42, "./data", members, vec![], vec![], vec![], vec![], vec![])
}

fn run_sync(a: &mut MetadataArchiver, pages: Vec<Vec<MemberInfo>>) {
    let mut sync = MemberSync::new();
    let mut pages = pages.into_iter();
    while sync.next_after().is_some() {
        let page = pages.next().unwrap_or_default();
        sync.on_page(a, page);
    }
    sync.finish(a, 123);
}

#[test]
fn member_reconciliation() {
    let seed: Vec<MemberEvent> =
        [1, 2, 3].iter().map(|&id| MemberEvent::from_add_or_update(&member(id))).collect();
    let mut a = archiver(seed);
    run_sync(&mut a, vec![vec![member(2), member(3), member(4)]]);
    let mut ids = a.members.ids();
    ids.sort();
    assert_eq!(ids, vec![2, 3, 4]);
    let journal = a.members.take_journal();
    assert_eq!(journal.len(), 2);
    assert_eq!((journal[0].user_id, journal[0].left_at), (4, None));
    assert_eq!((journal[1].user_id, journal[1].left_at), (1, Some(123)));
    assert_eq!(journal[1].username, "UNKNOWN");
    run_sync(&mut a, vec![vec![member(2), member(3), member(4)]]);
    assert!(a.members.take_journal().is_empty());
}

#[test]
fn member_row_fields() {
    let mut m = member(5);
    m.user_avatar = Some(ImageHash { hash: "abc".to_string(), animated: false });
    m.member_avatar = Some(ImageHash { hash: "a_def".to_string(), animated: true });
    let row = MemberEvent::from_add_or_update(&m);
    assert_eq!(row.avatar.as_deref(), Some("a_def"));
    assert_eq!(row.joined_at, Some(1_700_000_000_000));
    assert_eq!(row.roles, vec![10, 11]);
    assert!(row.left_at.is_none());
}

#[test]
fn member_update_queues_avatar_once() {
    let mut a = archiver(vec![]);
    let mut m = member(5);
    m.member_avatar = Some(ImageHash { hash: "a_def".to_string(), animated: true });
    a.process_member_update(&m);
    a.process_member_update(&m);
    assert_eq!(a.downloads.len(), 1);
    let d = &a.downloads[0];
    assert_eq!(d.url, "https://cdn.discordapp.com/avatars/5/a_def.gif");
    assert_eq!(d.folder, "./data/42/assets/avatars");
    assert_eq!(d.filename, "5_a_def.gif");
}

fn guild() -> GuildInfo {
    GuildInfo {
        name: "G".to_string(),
        icon: Some(ImageHash { hash: "a_ic".to_string(), animated: true }),
        banner: Some(ImageHash { hash: "bn".to_string(), animated: false }),
        description: None,
        splash: Some(ImageHash { hash: "sp".to_string(), animated: true }),
    }
}

#[test]
fn full_guild_update_queues_assets_emojis_and_stickers() {
    let mut a = archiver(vec![]);
    let emojis = vec![
        EmojiEvent { id: 1, name: "e1".to_string(), animated: true, deleted: false },
        EmojiEvent { id: 2, name: "e2".to_string(), animated: false, deleted: false },
    ];
    let stickers = vec![
        StickerEvent { id: 3, name: "s3".to_string(), format_type: StickerFormat::Lottie, deleted: false },
        StickerEvent { id: 4, name: "s4".to_string(), format_type: StickerFormat::Unknown(9), deleted: false },
        StickerEvent { id: 5, name: "s5".to_string(), format_type: StickerFormat::Apng, deleted: false },
    ];
    a.process_guild_update(GuildUpdate::Full { guild: guild(), emojis, stickers });
    let got: Vec<(String, String, String)> = a
        .downloads
        .iter()
        .map(|d| (d.url.clone(), d.folder.clone(), d.filename.clone()))
        .collect();
    let want = vec![
        ("https://cdn.discordapp.com/icons/42/a_ic.gif", "./data/42/assets/icons", "a_ic.gif"),
        ("https://cdn.discordapp.com/banners/42/bn.png", "./data/42/assets/banners", "bn.png"),
        ("https://cdn.discordapp.com/splashes/42/sp.png", "./data/42/assets/splashes", "sp.png"),
        ("https://cdn.discordapp.com/emojis/1.gif", "./data/42/assets/emojis", "1.gif"),
        ("https://cdn.discordapp.com/emojis/2.png", "./data/42/assets/emojis", "2.png"),
        ("https://cdn.discordapp.com/stickers/3.json", "./data/42/assets/stickers", "3.json"),
        ("https://cdn.discordapp.com/stickers/4.bin", "./data/42/assets/stickers", "4.bin"),
        ("https://cdn.discordapp.com/stickers/5.png", "./data/42/assets/stickers", "5.png"),
    ];
    let want: Vec<(String, String, String)> =
        want.into_iter().map(|(u, f, n)| (u.to_string(), f.to_string(), n.to_string())).collect();
    assert_eq!(got, want);
    assert_eq!(a.guild_info.get(0).unwrap().icon.as_deref(), Some("a_ic"));
}

#[test]
fn unchanged_full_update_queues_nothing_new() {
    let mut a = archiver(vec![]);
    a.process_guild_update(GuildUpdate::Full { guild: guild(), emojis: vec![], stickers: vec![] });
    let before = a.downloads.len();
    a.process_guild_update(GuildUpdate::Full { guild: guild(), emojis: vec![], stickers: vec![] });
    assert_eq!(a.downloads.len(), before);
    a.process_guild_update(GuildUpdate::Partial(GuildInfo { name: "H".to_string(), ..guild() }));
    assert_eq!(a.downloads.len(), before);
    assert_eq!(a.guild_info.get(0).unwrap().name, "H");
}

#[test]
fn channel_and_role_deletes_leave_tombstones() {
    let mut a = archiver(vec![]);
    a.process_role_delete(77);
    assert!(a.roles.take_journal().is_empty());
    let role = bigbrother::metadata::RoleEvent {
        role_id: 77,
        name: "r".to_string(),
        color: 1,
        position: 2,
        permissions: "8".to_string(),
        hoist: true,
        mentionable: false,
        deleted: false,
    };
    a.process_role_update(role);
    a.process_role_delete(77);
    let j = a.roles.take_journal();
    assert_eq!(j.len(), 2);
    assert!(j[1].deleted);
    a.process_channel_delete(5);
    assert!(a.channels.take_journal().is_empty());
}

#[test]
fn asset_path_layout() {
    let a = archiver(vec![]);
    assert_eq!(a.asset_path("icons"), "./data/42/assets/icons");
}

#[test]
fn member_sync_counts_and_cursor() {
    let mut a = archiver(vec![]);
    let mut sync = MemberSync::new();
    assert_eq!(sync.next_after(), Some(1));
    sync.on_page(&mut a, vec![member(5), member(9)]);
    assert_eq!(sync.next_after(), Some(9));
    sync.on_page(&mut a, vec![member(12)]);
    assert_eq!(sync.total(), 3);
    sync.on_page(&mut a, vec![]);
    assert_eq!(sync.next_after(), None);
    sync.finish(&mut a, 1);
    let mut ids = a.members.ids();
    ids.sort();
    assert_eq!(ids, vec![5, 9, 12]);
}

#[test]
fn full_update_tombstones_missing_emojis_and_partial_leaves_them() {
    let seed = vec![
        EmojiEvent { id: 1, name: "e1".to_string(), animated: false, deleted: false },
        EmojiEvent { id: 2, name: "e2".to_string(), animated: false, deleted: false },
    ];
    let mut a = MetadataArchiver::new(42, "./data", vec![], vec![], vec![], vec![], seed, vec![]);
    a.process_guild_update(GuildUpdate::Partial(guild()));
    assert!(a.emojis.take_journal().is_empty());
    let keep = vec![EmojiEvent { id: 2, name: "e2".to_string(), animated: false, deleted: false }];
    a.process_guild_update(GuildUpdate::Full { guild: guild(), emojis: keep, stickers: vec![] });
    let j = a.emojis.take_journal();
    assert_eq!(j.len(), 1);
    assert_eq!((j[0].id, j[0].deleted), (1, true));
    assert_eq!(a.emojis.ids(), vec![2]);
}
