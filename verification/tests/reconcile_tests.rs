use nyaa_notifications::config::{ModuleConfig, ModuleType};
use nyaa_notifications::dispatch::{accepted_comments, dispatch_update, dispatch_updates};
use nyaa_notifications::model::{
    NyaaComment, NyaaCommentUpdateType, NyaaTorrent, NyaaUpdate, NyaaUser,
};
use nyaa_notifications::reconcile::{
    find_comment_changes, known_torrent_event, new_torrent_event, new_torrent_needs_detail,
    reconcile, thread_has_change,
};
use nyaa_notifications::store::{apply_update, prepare_for_store};

fn user(name: &str) -> NyaaUser {
    NyaaUser {
        anonymous: false,
        role: "User".to_string(),
        username: name.to_string(),
        avatar: Some("https://nyaa.si/static/img/avatar/default.png".to_string()),
        banned: false,
    }
}

fn comment(name: &str, ts: u64, msg: &str) -> NyaaComment {
    NyaaComment {
        user: user(name),
        message: msg.to_string(),
        old_message: None,
        uploader: false,
        date_timestamp: ts,
        edited_timestamp: None,
        old_edited_timestamp: None,
        direct_link: format!("https://nyaa.si/view/1#com-{}", name),
        update_type: NyaaCommentUpdateType::UNDECIDED,
    }
}

fn torrent(id: u64, amount: u64, comments: Vec<NyaaComment>) -> NyaaTorrent {
    NyaaTorrent {
        uploader: Some(user("up")),
        id,
        domain: "https://nyaa.si/".to_string(),
        title: format!("Torrent {}", id),
        category: "Anime".to_string(),
        size: "1.2 GiB".to_string(),
        magnet_link: "magnet:?xt=urn:btih:abc".to_string(),
        upload_date_str: "2024-01-01 00:00".to_string(),
        upload_date_timestamp: 1704067200,
        seeders: 10,
        leechers: 2,
        completed: 55,
        comments_amount: amount,
        comments: comments,
    }
}

fn module(kind: ModuleType, comments: bool, uploads: bool) -> ModuleConfig {
    ModuleConfig {
        module_type: kind,
        active: true,
        feeds: Some(vec!["https://nyaa.si/?".to_string()]),
        comments: Some(comments),
        uploads: Some(uploads),
        retrieve_all_pages: Some(false),
        smtp_username: None,
        smtp_password: None,
        smtp_domain: None,
        smtp_port: None,
        smtp_subject: None,
        smtp_recipients: None,
        gotify_domain: None,
        gotify_token: None,
        gotify_comment_priority: None,
        gotify_upload_priority: None,
        discord_token: None,
        discord_bot_id: None,
        discord_channel_id: None,
        discord_pinged_role: None,
        discord_bot_activity_type: None,
        discord_bot_activity_text: None,
    }
}

#[test]
fn edit_detection() {
    let mut fresh_c = comment("a", 100, "hi there");
    fresh_c.edited_timestamp = Some(150);
    let db_c = comment("a", 100, "hi");
    let diff = find_comment_changes(&vec![fresh_c], &vec![db_c]);
    assert_eq!(diff.len(), 1);
    assert_eq!(diff[0].update_type, NyaaCommentUpdateType::EDITED);
    assert_eq!(diff[0].message, "hi there");
    assert_eq!(diff[0].old_message, Some("hi".to_string()));
    assert_eq!(diff[0].edited_timestamp, Some(150));
    assert_eq!(diff[0].old_edited_timestamp, None);
}

#[test]
fn unchanged_comment_passes_through_persisted_copy() {
    let fresh_c = comment("a", 100, "hi");
    let mut db_c = comment("a", 100, "hi");
    db_c.update_type = NyaaCommentUpdateType::UNCHECKED;
    let diff = find_comment_changes(&vec![fresh_c], &vec![db_c]);
    assert_eq!(diff.len(), 1);
    assert_eq!(diff[0].update_type, NyaaCommentUpdateType::UNCHECKED);
    assert!(!thread_has_change(&diff));
}

#[test]
fn new_and_deleted_comments_classified() {
    let fresh = vec![comment("a", 100, "hi"), comment("b", 200, "yo")];
    let db = vec![comment("a", 100, "hi"), comment("c", 50, "old")];
    let diff = find_comment_changes(&fresh, &db);
    assert_eq!(diff.len(), 3);
    assert_eq!(diff[0].update_type, NyaaCommentUpdateType::UNDECIDED);
    assert_eq!(diff[1].update_type, NyaaCommentUpdateType::NEW);
    assert_eq!(diff[1].user.username, "b");
    assert_eq!(diff[2].update_type, NyaaCommentUpdateType::DELETED);
    assert_eq!(diff[2].user.username, "c");
    assert!(thread_has_change(&diff));
}

#[test]
fn deletion_synthesis() {
    let m = module(ModuleType::Gotify, true, true);
    let db = torrent(
        7,
        3,
        vec![comment("a", 1, "x"), comment("b", 2, "y"), comment("c", 3, "z")],
    );
    let fresh = torrent(7, 0, vec![]);
    let ev = known_torrent_event(&m, &fresh, &db, None, 1000);
    let up = ev.expect("deletion synthesis must emit an update");
    assert!(!up.new_upload);
    assert_eq!(up.torrent.comments_amount, 0);
    assert_eq!(up.torrent.comments.len(), 3);
    for c in &up.torrent.comments {
        assert_eq!(c.update_type, NyaaCommentUpdateType::DELETED);
    }
}

#[test]
fn freshness_window_edges() {
    let m = module(ModuleType::Gotify, true, true);
    let t0: u64 = 1_000_000;
    let mut db_c = comment("a", t0, "hi");
    db_c.update_type = NyaaCommentUpdateType::UNCHECKED;
    let db = torrent(7, 1, vec![db_c]);
    let mut fresh_full_c = comment("a", t0, "hi edited");
    fresh_full_c.edited_timestamp = Some(t0 + 10);
    let fresh = torrent(7, 1, vec![]);
    let detail = torrent(7, 1, vec![fresh_full_c]);

    // 59 minutes after creation: still inside the window, re-diffed.
    let ev = known_torrent_event(&m, &fresh, &db, Some(&detail), t0 + 59 * 60);
    assert!(ev.is_some());
    let up = ev.unwrap();
    assert_eq!(up.torrent.comments[0].update_type, NyaaCommentUpdateType::EDITED);

    // 61 minutes after creation: frozen, never rechecked.
    let ev2 = known_torrent_event(&m, &fresh, &db, Some(&detail), t0 + 61 * 60);
    assert!(ev2.is_none());
}

#[test]
fn new_torrent_skip_on_fetch_failure() {
    let m = module(ModuleType::Gotify, true, true);
    let fresh = torrent(42, 5, vec![]);
    assert!(new_torrent_needs_detail(&m, &fresh));
    let ev = new_torrent_event(&m, &fresh, None, None);
    assert!(ev.is_none());

    // The whole-feed run also emits nothing and leaves no state behind.
    let updates = reconcile(&m, &vec![fresh], &vec![], &vec![None], &vec![None], 1000);
    assert_eq!(updates.len(), 0);
}

#[test]
fn new_torrent_comments_tagged_new() {
    let m = module(ModuleType::Gotify, true, true);
    let fresh = torrent(42, 2, vec![]);
    let detail = torrent(42, 2, vec![comment("a", 1, "x"), comment("b", 2, "y")]);
    let ev = new_torrent_event(&m, &fresh, Some(&detail), None).expect("emits");
    assert!(ev.new_upload);
    assert_eq!(ev.torrent.comments.len(), 2);
    for c in &ev.torrent.comments {
        assert_eq!(c.update_type, NyaaCommentUpdateType::NEW);
    }
}

#[test]
fn discord_anonymous_uploader_gets_default_avatar() {
    let m = module(ModuleType::Discord, false, true);
    let mut fresh = torrent(42, 0, vec![]);
    let mut anon = user("someone");
    anon.anonymous = true;
    fresh.uploader = Some(anon);
    let ev = new_torrent_event(&m, &fresh, None, None).expect("emits");
    let up = ev.torrent.uploader.expect("uploader set");
    assert!(up.anonymous);
    assert_eq!(up.username, "Anonymous");
    assert_eq!(
        up.avatar,
        Some("https://nyaa.si/static/img/avatar/default.png".to_string())
    );
}

#[test]
fn discord_avatar_lookup_failure_skips_torrent() {
    let m = module(ModuleType::Discord, false, true);
    let fresh = torrent(42, 0, vec![]);
    let ev = new_torrent_event(&m, &fresh, None, None);
    assert!(ev.is_none());
}

#[test]
fn no_lost_on_failure_three_comments() {
    let mut c1 = comment("a", 1, "one");
    c1.update_type = NyaaCommentUpdateType::NEW;
    let mut c2 = comment("b", 2, "two");
    c2.update_type = NyaaCommentUpdateType::NEW;
    let mut c3 = comment("c", 3, "three");
    c3.update_type = NyaaCommentUpdateType::NEW;
    let accepted = accepted_comments(&vec![c1, c2, c3], &vec![true, false, true]);
    assert_eq!(accepted.len(), 2);
    assert_eq!(accepted[0].user.username, "a");
    assert_eq!(accepted[0].update_type, NyaaCommentUpdateType::UNCHECKED);
    assert_eq!(accepted[1].user.username, "c");
    assert_eq!(accepted[1].update_type, NyaaCommentUpdateType::UNCHECKED);
}

#[test]
fn failed_edit_reverts_to_persisted_copy() {
    let mut c = comment("a", 1, "new text");
    c.update_type = NyaaCommentUpdateType::EDITED;
    c.old_message = Some("old text".to_string());
    c.edited_timestamp = Some(500);
    c.old_edited_timestamp = Some(400);
    let accepted = accepted_comments(&vec![c], &vec![false]);
    assert_eq!(accepted.len(), 1);
    assert_eq!(accepted[0].message, "old text");
    assert_eq!(accepted[0].old_message, None);
    assert_eq!(accepted[0].edited_timestamp, Some(400));
    assert_eq!(accepted[0].update_type, NyaaCommentUpdateType::UNDECIDED);
}

#[test]
fn delivered_deletion_is_terminal() {
    let mut c = comment("a", 1, "bye");
    c.update_type = NyaaCommentUpdateType::DELETED;
    let accepted = accepted_comments(&vec![c], &vec![true]);
    assert_eq!(accepted.len(), 0);
}

#[test]
fn failed_deletion_keeps_frozen_record() {
    let mut c = comment("a", 1, "bye");
    c.update_type = NyaaCommentUpdateType::DELETED;
    let accepted = accepted_comments(&vec![c], &vec![false]);
    assert_eq!(accepted.len(), 1);
    assert_eq!(accepted[0].update_type, NyaaCommentUpdateType::UNDECIDED);
}

#[test]
fn upload_send_failure_rejects_whole_update() {
    let m = module(ModuleType::Discord, true, true);
    let u = NyaaUpdate { new_upload: true, torrent: torrent(1, 0, vec![]) };
    let r = dispatch_update(&m, &u, false, &vec![]);
    assert!(r.is_none());
}

#[test]
fn uploads_disabled_accepts_without_send() {
    let m = module(ModuleType::Discord, true, false);
    let u = NyaaUpdate { new_upload: true, torrent: torrent(1, 0, vec![]) };
    let r = dispatch_update(&m, &u, false, &vec![]);
    assert!(r.is_some());
}

#[test]
fn comments_disabled_drops_deleted_keeps_rest() {
    let m = module(ModuleType::Gotify, false, true);
    let mut c1 = comment("a", 1, "x");
    c1.update_type = NyaaCommentUpdateType::DELETED;
    let mut c2 = comment("b", 2, "y");
    c2.update_type = NyaaCommentUpdateType::NEW;
    let u = NyaaUpdate { new_upload: false, torrent: torrent(1, 2, vec![c1, c2]) };
    let r = dispatch_update(&m, &u, true, &vec![true, true]).expect("accepted");
    assert_eq!(r.torrent.comments.len(), 1);
    assert_eq!(r.torrent.comments[0].user.username, "b");
    assert_eq!(r.torrent.comments[0].update_type, NyaaCommentUpdateType::NEW);
}

#[test]
fn prepare_for_store_freezes_old_comments() {
    let mut young = comment("a", 10_000, "x");
    young.update_type = NyaaCommentUpdateType::UNCHECKED;
    let mut old = comment("b", 1_000, "y");
    old.update_type = NyaaCommentUpdateType::UNCHECKED;
    let u = NyaaUpdate { new_upload: false, torrent: torrent(1, 2, vec![young, old]) };
    // now is 3661 seconds past the older comment's creation but only
    // 661 past the younger one's.
    let r = prepare_for_store(&u, 1_000 + 3661);
    assert_eq!(r.torrent.comments[0].update_type, NyaaCommentUpdateType::UNCHECKED);
    assert_eq!(r.torrent.comments[1].update_type, NyaaCommentUpdateType::UNDECIDED);
}

#[test]
fn apply_update_upserts_by_id() {
    let mut store = vec![torrent(1, 0, vec![]), torrent(2, 0, vec![])];
    let u = NyaaUpdate { new_upload: false, torrent: torrent(2, 5, vec![]) };
    apply_update(&mut store, &u);
    assert_eq!(store.len(), 2);
    assert_eq!(store[1].comments_amount, 5);
    let fresh = NyaaUpdate { new_upload: true, torrent: torrent(9, 0, vec![]) };
    apply_update(&mut store, &fresh);
    assert_eq!(store.len(), 3);
    assert_eq!(store[2].id, 9);
}

#[test]
fn reconcile_idempotent_after_full_delivery() {
    let m = module(ModuleType::Gotify, true, true);
    let t0: u64 = 1_000_000;
    let mut known = comment("a", t0, "hi");
    known.update_type = NyaaCommentUpdateType::UNCHECKED;
    let mut store = vec![torrent(7, 1, vec![known])];
    let fresh = torrent(7, 2, vec![]);
    let detail = torrent(7, 2, vec![comment("a", t0, "hi"), comment("b", t0 + 5, "new!")]);
    let now = t0 + 100;

    // First cycle: the new comment is detected.
    let ev = known_torrent_event(&m, &fresh, &store[0], Some(&detail), now).expect("emits");
    assert_eq!(ev.torrent.comments.len(), 2);

    // Every send succeeds; the accepted update advances the store.
    let accepted = dispatch_update(&m, &ev, true, &vec![true, true]).expect("accepted");
    let prepared = prepare_for_store(&accepted, now);
    apply_update(&mut store, &prepared);

    // Second cycle against the unchanged snapshot: nothing to do.
    let ev2 = known_torrent_event(&m, &fresh, &store[0], Some(&detail), now + 60);
    assert!(ev2.is_none());
}

#[test]
fn reconcile_preserves_feed_order() {
    let m = module(ModuleType::Gotify, true, true);
    let fresh = vec![torrent(1, 0, vec![]), torrent(2, 0, vec![]), torrent(3, 0, vec![])];
    let updates = reconcile(
        &m,
        &fresh,
        &vec![],
        &vec![None, None, None],
        &vec![None, None, None],
        1000,
    );
    assert_eq!(updates.len(), 3);
    assert_eq!(updates[0].torrent.id, 1);
    assert_eq!(updates[1].torrent.id, 2);
    assert_eq!(updates[2].torrent.id, 3);
    assert!(updates.iter().all(|u| u.new_upload));
}

#[test]
fn dispatch_updates_keeps_order_and_drops_rejected() {
    let m = module(ModuleType::Discord, true, true);
    let u1 = NyaaUpdate { new_upload: true, torrent: torrent(1, 0, vec![]) };
    let u2 = NyaaUpdate { new_upload: true, torrent: torrent(2, 0, vec![]) };
    let u3 = NyaaUpdate { new_upload: true, torrent: torrent(3, 0, vec![]) };
    let accepted = dispatch_updates(
        &m,
        &vec![u1, u2, u3],
        &vec![true, false, true],
        &vec![vec![], vec![], vec![]],
    );
    assert_eq!(accepted.len(), 2);
    assert_eq!(accepted[0].torrent.id, 1);
    assert_eq!(accepted[1].torrent.id, 3);
}
