use bigbrother::entity::{EntityManager, Replayable};
use bigbrother::metadata::{ChannelEvent, EmojiEvent, RoleEvent, StickerEvent, StickerFormat};

fn emoji(id: u64, name: &str) -> EmojiEvent {
    EmojiEvent { id, name: name.to_string(), animated: false, deleted: false }
}

fn names(m: &EntityManager<EmojiEvent>) -> Vec<(u64, String)> {
    let mut ids = m.ids();
    ids.sort();
    ids.into_iter().map(|id| (id, m.get(id).unwrap().name.clone())).collect()
}

#[test]
fn replay_last_write_wins_and_tombstone_erases() {
    let log = vec![
        emoji(1, "a"),
        emoji(2, "b"),
        emoji(1, "a2"),
        EmojiEvent::from_delete(2),
        emoji(3, "c"),
        EmojiEvent::from_delete(4),
    ];
    let mut m = EntityManager::new(log);
    assert_eq!(names(&m), vec![(1, "a2".to_string()), (3, "c".to_string())]);
    assert_eq!(m.len(), 2);
    assert!(m.take_journal().is_empty());
}

#[test]
fn handle_update_twice_appends_once() {
    let mut m: EntityManager<EmojiEvent> = EntityManager::new(Vec::new());
    assert!(m.handle_update(7, emoji(7, "x")));
    assert!(!m.handle_update(7, emoji(7, "x")));
    let j = m.take_journal();
    assert_eq!(j.len(), 1);
    assert_eq!(j[0].name, "x");
    assert!(m.handle_update(7, emoji(7, "y")));
    assert_eq!(m.take_journal().len(), 1);
}

#[test]
fn handle_delete_only_when_held() {
    let mut m = EntityManager::new(vec![emoji(5, "e")]);
    assert!(!m.handle_delete(6, || EmojiEvent::from_delete(6)));
    assert!(m.take_journal().is_empty());
    assert!(m.handle_delete(5, || EmojiEvent::from_delete(5)));
    let j = m.take_journal();
    assert_eq!(j.len(), 1);
    assert!(j[0].is_delete());
    assert_eq!(j[0].id(), 5);
    assert!(!m.contains(5));
}

#[test]
fn reconcile_twice_appends_nothing_the_second_time() {
    let mut m = EntityManager::new(vec![emoji(1, "one"), emoji(2, "two"), emoji(3, "three")]);
    let snapshot = || vec![emoji(2, "two"), emoji(3, "THREE"), emoji(4, "four")];
    m.reconcile(snapshot(), EmojiEvent::from_delete);
    let j = m.take_journal();
    let summary: Vec<(u64, bool)> = j.iter().map(|e| (e.id, e.deleted)).collect();
    assert_eq!(summary, vec![(3, false), (4, false), (1, true)]);
    assert_eq!(
        names(&m),
        vec![(2, "two".to_string()), (3, "THREE".to_string()), (4, "four".to_string())]
    );
    m.reconcile(snapshot(), EmojiEvent::from_delete);
    assert!(m.take_journal().is_empty());
}

#[test]
fn sync_reports_changed_records() {
    let mut m = EntityManager::new(vec![emoji(1, "one")]);
    let flags = m.sync(vec![emoji(1, "one"), emoji(2, "two")], EmojiEvent::from_delete);
    assert_eq!(flags, vec![false, true]);
}

#[test]
fn tombstones_of_each_kind() {
    let r = RoleEvent::from_delete(9);
    assert_eq!((r.role_id, r.name.as_str(), r.color, r.position), (9, "", 0, 0));
    assert_eq!(r.permissions, "0");
    assert!(r.deleted && !r.hoist && !r.mentionable);
    let c = ChannelEvent::from_delete(8);
    assert_eq!(c.channel_id, 8);
    assert_eq!(c.name, "DELETED");
    assert!(c.deleted && c.topic.is_none() && c.parent_id.is_none() && !c.nsfw);
    assert_eq!((c.channel_type, c.position), (0, 0));
    let e = EmojiEvent::from_delete(7);
    assert!(e.deleted && !e.animated && e.name.is_empty() && e.id == 7);
    let s = StickerEvent::from_delete(6);
    assert!(s.deleted && s.id == 6 && s.format_type == StickerFormat::Png);
}
