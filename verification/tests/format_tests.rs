use nyaa_notifications::cache::{normalize_feed_url, NyaaPage, Web, FEED_CACHE_LIMIT};
use nyaa_notifications::config::{Config, ConfigError, ModuleConfig, ModuleType};
use nyaa_notifications::email::email_update_html;
use nyaa_notifications::format::{
    gotify_comment_message, gotify_json_body, gotify_upload_message, limit_string_length,
    page_url, text_color_from_role, torrent_download_url, torrent_view_url, user_url,
};
use nyaa_notifications::html::{get_uploader_name, serialize_user_page};
use nyaa_notifications::model::{
    NyaaComment, NyaaCommentUpdateType, NyaaTorrent, NyaaUpdate, NyaaUser,
};
use nyaa_notifications::strutil::u64_to_string;

fn user(name: &str) -> NyaaUser {
    NyaaUser {
        anonymous: false,
        role: "User".to_string(),
        username: name.to_string(),
        avatar: Some("https://nyaa.si/static/img/avatar/default.png".to_string()),
        banned: false,
    }
}

fn comment(name: &str, ts: u64, msg: &str) -> NyaaComment {
    NyaaComment {
        user: user(name),
        message: msg.to_string(),
        old_message: None,
        uploader: false,
        date_timestamp: ts,
        edited_timestamp: None,
        old_edited_timestamp: None,
        direct_link: "https://nyaa.si/view/1#com-1".to_string(),
        update_type: NyaaCommentUpdateType::UNDECIDED,
    }
}

fn torrent(id: u64, amount: u64, comments: Vec<NyaaComment>) -> NyaaTorrent {
    NyaaTorrent {
        uploader: Some(user("up")),
        id,
        domain: "https://nyaa.si/".to_string(),
        title: "Cats & Dogs".to_string(),
        category: "Anime".to_string(),
        size: "1.2 GiB".to_string(),
        magnet_link: "magnet:?xt=urn:btih:abc".to_string(),
        upload_date_str: "2024-01-01 00:00".to_string(),
        upload_date_timestamp: 1704067200,
        seeders: 10,
        leechers: 2,
        completed: 55,
        comments_amount: amount,
        comments: comments,
    }
}

fn module(kind: ModuleType, comments: bool, uploads: bool) -> ModuleConfig {
    ModuleConfig {
        module_type: kind,
        active: true,
        feeds: Some(vec!["https://nyaa.si/?".to_string()]),
        comments: Some(comments),
        uploads: Some(uploads),
        retrieve_all_pages: Some(false),
        smtp_username: None,
        smtp_password: None,
        smtp_domain: None,
        smtp_port: None,
        smtp_subject: None,
        smtp_recipients: None,
        gotify_domain: None,
        gotify_token: None,
        gotify_comment_priority: None,
        gotify_upload_priority: None,
        discord_token: None,
        discord_bot_id: None,
        discord_channel_id: None,
        discord_pinged_role: None,
        discord_bot_activity_type: None,
        discord_bot_activity_text: None,
    }
}

#[test]
fn limit_string_length_cuts_and_marks() {
    assert_eq!(limit_string_length("hello", 3), "hel...");
    assert_eq!(limit_string_length("hello", 5), "hello");
    assert_eq!(limit_string_length("", 5), "");
    assert_eq!(limit_string_length("h\u{e9}llo", 2), "h\u{e9}...");
}

#[test]
fn decimal_string_render() {
    assert_eq!(u64_to_string(0), "0");
    assert_eq!(u64_to_string(7), "7");
    assert_eq!(u64_to_string(1850923), "1850923");
    assert_eq!(u64_to_string(u64::MAX), "18446744073709551615");
}

#[test]
fn deep_links() {
    let d = "https://nyaa.si/".to_string();
    assert_eq!(torrent_view_url(&d, 123), "https://nyaa.si/view/123");
    assert_eq!(
        torrent_download_url(&d, 123),
        "https://nyaa.si/download/123.torrent"
    );
    assert_eq!(user_url(&d, &"neko".to_string()), "https://nyaa.si/user/neko");
    assert_eq!(
        page_url(&"https://nyaa.si/?".to_string(), 2),
        "https://nyaa.si/?p=2"
    );
}

#[test]
fn gotify_messages() {
    let t = torrent(99, 0, vec![]);
    assert_eq!(gotify_upload_message(&t), "Anime | 1.2 GiB | #99");
    let mut c = comment("neko", 5, "nice");
    c.update_type = NyaaCommentUpdateType::NEW;
    assert_eq!(gotify_comment_message(&c), "neko [NEW]: nice");
    c.update_type = NyaaCommentUpdateType::EDITED;
    assert_eq!(gotify_comment_message(&c), "neko [EDITED]: nice");
    c.update_type = NyaaCommentUpdateType::DELETED;
    assert_eq!(gotify_comment_message(&c), "neko [DELETED]: nice");
}

#[test]
fn gotify_json_body_escapes_like_serde() {
    let body = gotify_json_body("a\"b\\c", "line\nbreak\ttab", 5);
    let v: serde_json::Value = serde_json::from_str(&body).expect("valid json");
    assert_eq!(v["title"], "a\"b\\c");
    assert_eq!(v["message"], "line\nbreak\ttab");
    assert_eq!(v["priority"], 5);
}

#[test]
fn gotify_json_body_exact() {
    assert_eq!(
        gotify_json_body("t", "m", 1),
        "{\"title\":\"t\",\"message\":\"m\",\"priority\":1}"
    );
}

#[test]
fn role_colors() {
    assert_eq!(text_color_from_role("Administrator".to_string()), "purple");
    assert_eq!(text_color_from_role("Trusted".to_string()), "success");
    assert_eq!(text_color_from_role("User".to_string()), "default");
}

#[test]
fn email_html_renders_upload_and_comment() {
    let m = module(ModuleType::Email, true, true);
    let mut c = comment("neko", 0, "first!");
    c.update_type = NyaaCommentUpdateType::NEW;
    let u = NyaaUpdate { new_upload: true, torrent: torrent(55, 1, vec![c]) };
    let html = email_update_html(&m, &u, 1000);
    // The title goes through attribute escaping.
    assert!(html.contains("Cats &amp; Dogs"));
    // The rendered timestamp comes from the real calendar rendering.
    assert!(html.contains("1970-01-01 00:00:00"));
    assert!(html.contains("https://nyaa.si/view/55"));
    assert!(html.contains("https://nyaa.si/download/55.torrent"));
    assert!(html.contains("info-panel new_release"));
    assert!(html.contains("first!"));
    assert!(html.ends_with("</div></body></html>"));
}

#[test]
fn email_html_plain_panel_without_upload_flag() {
    let m = module(ModuleType::Email, true, false);
    let u = NyaaUpdate { new_upload: true, torrent: torrent(55, 0, vec![]) };
    let html = email_update_html(&m, &u, 1000);
    assert!(!html.contains("info-panel new_release"));
    assert!(!html.contains("Download .torrent"));
}

#[test]
fn config_validation() {
    let mut inactive = module(ModuleType::Email, true, true);
    inactive.active = false;
    let cfg = Config { update_interval: 5, module: vec![inactive] };
    assert_eq!(cfg.validate(), Err(ConfigError::NoActiveModules));

    let cfg2 = Config {
        update_interval: 5,
        module: vec![
            module(ModuleType::Discord, true, true),
            module(ModuleType::Discord, true, true),
        ],
    };
    assert_eq!(cfg2.validate(), Err(ConfigError::MultipleDiscordModules));

    let cfg3 = Config {
        update_interval: 5,
        module: vec![
            module(ModuleType::Discord, true, true),
            module(ModuleType::Email, true, true),
        ],
    };
    assert_eq!(cfg3.validate(), Ok(()));
}

#[test]
fn module_type_names() {
    assert_eq!(ModuleType::Email.to_string(), "Email");
    assert_eq!(ModuleType::Gotify.to_string(), "Gotify");
    assert_eq!(ModuleType::Discord.to_string(), "Discord");
}

#[test]
fn feed_url_normalization() {
    assert_eq!(
        normalize_feed_url(&"https://nyaa.si".to_string()),
        "https://nyaa.si/?"
    );
    assert_eq!(
        normalize_feed_url(&"https://nyaa.si/user/neko".to_string()),
        "https://nyaa.si/user/neko?"
    );
    assert_eq!(
        normalize_feed_url(&"https://nyaa.si/?q=x".to_string()),
        "https://nyaa.si/?q=x&"
    );
    assert_eq!(
        normalize_feed_url(&"http://nyaa.si".to_string()),
        "https://nyaa.si/?"
    );
}

#[test]
fn cache_serves_shallow_from_complete_page() {
    let mut web = Web::new();
    let mut torrents: Vec<NyaaTorrent> = Vec::new();
    for i in 0..90u64 {
        torrents.push(torrent(i, 0, vec![]));
    }
    // A duplicate id must be served only once.
    torrents.push(torrent(0, 0, vec![]));
    web.add_page("https://nyaa.si/?".to_string(), true, torrents);
    let (served, complete) = web.search_cached(&"https://nyaa.si/?".to_string(), false);
    assert_eq!(served.len(), FEED_CACHE_LIMIT);
    assert!(!complete);
    let (all, complete2) = web.search_cached(&"https://nyaa.si/?".to_string(), true);
    assert_eq!(all.len(), 90);
    assert!(complete2);
}

#[test]
fn cache_shallow_page_leaves_complete_request_unsatisfied() {
    let mut web = Web::new();
    web.add_page(
        "https://nyaa.si/?".to_string(),
        false,
        vec![torrent(1, 0, vec![])],
    );
    let (served, complete) = web.search_cached(&"https://nyaa.si/?".to_string(), true);
    assert_eq!(served.len(), 1);
    assert!(!complete);
}

#[test]
fn cached_avatar_and_torrent_lookup() {
    let mut web = Web::new();
    web.cache_user(user("neko"));
    let got = web.find_cached_avatar(&"neko".to_string());
    assert_eq!(
        got,
        Some("https://nyaa.si/static/img/avatar/default.png".to_string())
    );
    assert_eq!(web.find_cached_avatar(&"nobody".to_string()), None);

    web.add_page(
        "https://nyaa.si/?".to_string(),
        false,
        vec![torrent(5, 1, vec![comment("a", 1, "x")])],
    );
    let hit = web.find_cached_torrent(5).expect("cached");
    assert_eq!(hit.id, 5);
    assert_eq!(hit.comments.len(), 1);
    assert!(web.find_cached_torrent(6).is_none());
    let _page_type_is_public: Option<NyaaPage> = None;
}

#[test]
fn user_page_avatar_extraction() {
    let html = "<!DOCTYPE html>\n<html>\n<meta property=\"og:image\" content=\"/static/img/avatars/123.png\">\n</html>";
    let avatar = serialize_user_page(html, &"https://nyaa.si".to_string());
    assert_eq!(avatar, "https://nyaa.si/static/img/avatars/123.png");

    let absolute = "<!DOCTYPE html>\n<meta property=\"og:image\" content=\"https://cdn.example/a.png\">";
    assert_eq!(
        serialize_user_page(absolute, &"https://nyaa.si".to_string()),
        "https://cdn.example/a.png"
    );

    assert_eq!(serialize_user_page("<html>", &"d".to_string()), "");
    assert_eq!(
        serialize_user_page("<!DOCTYPE html>\n<html></html>", &"d".to_string()),
        ""
    );
}

#[test]
fn uploader_name_extraction() {
    let html = "<!DOCTYPE html>\n\t\t<div class=\"col-md-1\">Submitter:</div>\n\t\t<div class=\"col-md-5\"><a class=\"text-default\" href=\"/user/neko\" title=\"User\">neko</a>\t\t\t</div>";
    let u = get_uploader_name(html).expect("parsed");
    assert!(!u.anonymous);
    assert_eq!(u.username, "neko");
    assert_eq!(u.role, "User");
    assert!(!u.banned);
}

#[test]
fn uploader_trusted_panel_sets_role() {
    let html = "<!DOCTYPE html>\n\t<div class=\"panel panel-success\">\n\t\t<div class=\"col-md-1\">Submitter:</div>\n\t\t<div class=\"col-md-5\"><a class=\"text-success\" href=\"/user/subsplease\" title=\"Trusted\">subsplease</a>\t\t\t</div>";
    let u = get_uploader_name(html).expect("parsed");
    assert_eq!(u.username, "subsplease");
    assert_eq!(u.role, "Trusted");
}

#[test]
fn uploader_anonymous_page() {
    let html = "<!DOCTYPE html>\n\t<div class=\"col-md-1\">Seeders:</div>";
    let u = get_uploader_name(html).expect("parsed");
    assert!(u.anonymous);
    assert_eq!(u.username, "Anonymous");
    assert_eq!(u.avatar, None);
}

#[test]
fn uploader_banned_flag() {
    let html = "<!DOCTYPE html>\n\t\t<div class=\"col-md-1\">Submitter:</div>\n\t\t<div class=\"col-md-5\"><a class=\"text-default\" href=\"/user/spam\" title=\"User (BANNED)\">spam</a>\t\t\t</div>";
    let u = get_uploader_name(html).expect("parsed");
    assert!(u.banned);
    assert_eq!(u.username, "spam");
}

#[test]
fn uploader_requires_doctype() {
    assert!(get_uploader_name("<html>").is_none());
}

#[test]
fn feed_url_scheme_upgrade_applies_everywhere() {
    assert_eq!(
        normalize_feed_url(&"http://nyaa.si/?q=http://x".to_string()),
        "https://nyaa.si/?q=https://x&"
    );
}
