//! The HTML body of an email notification: a page head, one info panel
//! for the torrent and one panel per changed comment.

use vstd::prelude::*;

use crate::config::{comments_enabled, uploads_enabled, wf_module, ModuleConfig};
use crate::format::{
    encode_quoted_attribute, format_timestamp, quoted_attr_text, text_color_from_role,
    torrent_view_url, utc_datetime_text,
};
use crate::model::{CommentV, NyaaCommentUpdateType, NyaaUpdate, MAX_TIMESTAMP};
use crate::strutil::dec_rep;

verus! {

/// The fixed page head of every notification email.
pub fn email_html_head() -> (r: &'static str)
    ensures
        r@ == email_head_text(),
{
    "<!DOCTYPE html>\n<html><head><meta charset=\"UTF-8\"><style>\n.comments {padding-left: 10px;padding-right: 10px;}div.title {font-size: 20px;text-align: center;}\nbody {font-family: sans-serif;font-size: 14px;line-height: 1.42857143;color: #afafaf;background-color: #262626;margin: 0}\na {color: #337ab7;text-decoration: none;background-color: transparent}a:hover, a:focus {color: #19578b;text-decoration: underline}\nimg {border: 0;vertical-align: middle}p {margin: 0 0 10px}small {font-size: 85%}\n.col-md-2, .col-md-10 {position: relative;min-height: 1px;padding-left: 15px;padding-right: 15px}\n.panel {margin-top: 10px; margin-bottom: 10px;background-color: #323232;border: 1px solid transparent;border-radius: 4px}\n.panel-body {padding: 15px}.panel-default {border-color: #111}\n.info {margin-bottom: 0px;padding-left: 10px;}.info-panel {padding: 10px;}\ndiv.new_release {border-color:magenta;box-shadow: 0 0 10px rgba(255, 0, 255, 0.777);}\na.new_release {text-align: center;font-size: 20px;}\n</style>\n</head><body>"
}

/// Text of the fixed page head.
pub open spec fn email_head_text() -> Seq<char> {
    "<!DOCTYPE html>\n<html><head><meta charset=\"UTF-8\"><style>\n.comments {padding-left: 10px;padding-right: 10px;}div.title {font-size: 20px;text-align: center;}\nbody {font-family: sans-serif;font-size: 14px;line-height: 1.42857143;color: #afafaf;background-color: #262626;margin: 0}\na {color: #337ab7;text-decoration: none;background-color: transparent}a:hover, a:focus {color: #19578b;text-decoration: underline}\nimg {border: 0;vertical-align: middle}p {margin: 0 0 10px}small {font-size: 85%}\n.col-md-2, .col-md-10 {position: relative;min-height: 1px;padding-left: 15px;padding-right: 15px}\n.panel {margin-top: 10px; margin-bottom: 10px;background-color: #323232;border: 1px solid transparent;border-radius: 4px}\n.panel-body {padding: 15px}.panel-default {border-color: #111}\n.info {margin-bottom: 0px;padding-left: 10px;}.info-panel {padding: 10px;}\ndiv.new_release {border-color:magenta;box-shadow: 0 0 10px rgba(255, 0, 255, 0.777);}\na.new_release {text-align: center;font-size: 20px;}\n</style>\n</head><body>"@
}

/// Text of the torrent info panel: highlighted for a new upload the
/// destination wants announced, plain otherwise.
pub open spec fn email_panel_text(u: crate::model::UpdateV, announce: bool) -> Seq<char> {
    let t = u.torrent;
    let view_url = t.domain + "view/"@ + dec_rep(t.id as int);
    let title = quoted_attr_text(t.title);
    if announce {
        "<div class=\"panel panel-default info-panel new_release\"><div style=\"text-align: center;\"><a class=\"new_release\" href=\""@
            + view_url + "\">"@ + title + "</a></div><p class=\"info\">"@ + t.category
            + "</p><p class=\"info\">"@ + t.upload_date_str + "</p><p class=\"info\">"@ + t.size
            + "</p><a href=\""@ + t.domain + "download/"@ + dec_rep(t.id as int)
            + ".torrent\" class=\"info\">Download .torrent</a></div>"@
    } else {
        "<div class=\"panel panel-default info-panel\"><div style=\"text-align: center;\"><a href=\""@
            + view_url + "\">"@ + title + "</a></div><p class=\"info\">"@ + t.category
            + "</p><p class=\"info\">"@ + t.upload_date_str + "</p><p class=\"info\">"@ + t.size
            + "</p></div>"@
    }
}

/// The timestamp a comment panel shows: the moment of the deletion (the
/// clock now), the edit timestamp, or the creation timestamp.
pub open spec fn email_comment_ts(c: CommentV, now: u64) -> u64 {
    match c.update_type {
        NyaaCommentUpdateType::DELETED => now,
        NyaaCommentUpdateType::EDITED => c.edited_timestamp->Some_0,
        _ => c.date_timestamp,
    }
}

/// Color class of a role, as the comment panel uses it.
pub open spec fn spec_text_color(role: Seq<char>) -> Seq<char> {
    if role == "Administrator"@ {
        "purple"@
    } else if role == "Trusted"@ {
        "success"@
    } else {
        "default"@
    }
}

/// Opening half of one comment panel: author link and avatar.
pub open spec fn email_comment_text_head(c: CommentV, domain: Seq<char>) -> Seq<char> {
    let strike: Seq<char> = if c.user.banned {
        " strike"@
    } else {
        Seq::empty()
    };
    "<div class=\"panel panel-default comment-panel\"><div class=\"panel-body\"><div class=\"col-md-2\"><p><a class=\"text-"@
        + spec_text_color(c.user.role) + strike + "\" href=\""@ + domain + "user/"@
        + c.user.username + "\" title=\"User\">"@ + c.user.username
        + "</a></p><img class=\"avatar\" src=\""@ + c.user.avatar->Some_0
}

/// Closing half of one comment panel: deep link, timestamp and message.
pub open spec fn email_comment_text_tail(c: CommentV, now: u64) -> Seq<char> {
    "\" alt=\"User\"></div><div class=\"col-md-10 comment\"><div class=\"row comment-details\"><a href=\""@
        + c.direct_link + "\"><small data-timestamp-swap>"@ + utc_datetime_text(
        email_comment_ts(c, now),
    ) + "</small></a></div><div class=\"row comment-body\"><div markdown-text class=\"comment-content\" id=\"comment\">"@
        + c.message + "</div></div></div></div></div>"@
}

/// Text of one comment panel.
pub open spec fn email_comment_text(c: CommentV, domain: Seq<char>, now: u64) -> Seq<char> {
    email_comment_text_head(c, domain) + email_comment_text_tail(c, now)
}

/// A comment the email renders: one classified as changed this cycle.
pub open spec fn email_renders(c: CommentV) -> bool {
    c.update_type is NEW || c.update_type is EDITED || c.update_type is DELETED
}

/// Texts of the rendered comment panels from index `i` on.
pub open spec fn email_comments_text_from(
    s: Seq<CommentV>,
    domain: Seq<char>,
    now: u64,
    i: int,
) -> Seq<char>
    decreases s.len() - i,
{
    if i < 0 || i >= s.len() {
        Seq::empty()
    } else {
        let head: Seq<char> = if email_renders(s[i]) {
            email_comment_text(s[i], domain, now)
        } else {
            Seq::empty()
        };
        head + email_comments_text_from(s, domain, now, i + 1)
    }
}

/// A comment thread every member of which the email page can render:
/// bounded timestamps, an avatar to show, and the edit timestamp where
/// the state demands one.
pub open spec fn email_renderable(s: Seq<CommentV>) -> bool {
    forall|i: int|
        0 <= i < s.len() ==> {
            &&& (#[trigger] s[i]).date_timestamp <= MAX_TIMESTAMP
            &&& (s[i].update_type is EDITED ==> s[i].edited_timestamp is Some)
            &&& match s[i].edited_timestamp {
                Some(t) => t <= MAX_TIMESTAMP,
                None => true,
            }
            &&& (email_renders(s[i]) ==> s[i].user.avatar is Some)
        }
}

/// The whole HTML body for one update; see [`email_panel_text`] and
/// [`email_comment_text`].
pub open spec fn spec_email_html(
    u: crate::model::UpdateV,
    up_en: bool,
    c_en: bool,
    now: u64,
) -> Seq<char> {
    let body = email_head_text() + email_panel_text(u, u.new_upload && up_en);
    let with_comments = if c_en {
        body + email_comments_text_from(u.torrent.comments, u.torrent.domain, now, 0)
    } else {
        body
    };
    with_comments + "</div></body></html>"@
}

/// Builds the HTML body of the email notification for one update: the
/// page head, the torrent's info panel (highlighted when it is a new
/// upload the destination announces) and, with comment notifications
/// on, one panel per changed comment.
#[verifier::rlimit(100)]
pub fn email_update_html(module: &ModuleConfig, u: &NyaaUpdate, now: u64) -> (r: String)
    requires
        wf_module(*module),
        now <= MAX_TIMESTAMP,
        email_renderable(crate::model::thread_view(u.torrent.comments@)),
    ensures
        r@ == spec_email_html(
            u@,
            uploads_enabled(*module),
            comments_enabled(*module),
            now,
        ),
{
    let ghost cv = crate::model::thread_view(u.torrent.comments@);
    let up_en = match module.uploads {
        Some(b) => b,
        None => false,
    };
    let c_en = match module.comments {
        Some(b) => b,
        None => false,
    };
    let mut html = String::from_str(email_html_head());
    let announce = u.new_upload && up_en;
    let title = encode_quoted_attribute(u.torrent.title.as_str());
    let view_url = torrent_view_url(&u.torrent.domain, u.torrent.id);
    if announce {
        html.append(
            "<div class=\"panel panel-default info-panel new_release\"><div style=\"text-align: center;\"><a class=\"new_release\" href=\"",
        );
        html.append(view_url.as_str());
        html.append("\">");
        html.append(title.as_str());
        html.append("</a></div><p class=\"info\">");
        html.append(u.torrent.category.as_str());
        html.append("</p><p class=\"info\">");
        html.append(u.torrent.upload_date_str.as_str());
        html.append("</p><p class=\"info\">");
        html.append(u.torrent.size.as_str());
        html.append("</p><a href=\"");
        html.append(&u.torrent.domain.as_str());
        html.append("download/");
        let n = crate::strutil::u64_to_string(u.torrent.id);
        html.append(n.as_str());
        html.append(".torrent\" class=\"info\">Download .torrent</a></div>");
    } else {
        html.append(
            "<div class=\"panel panel-default info-panel\"><div style=\"text-align: center;\"><a href=\"",
        );
        html.append(view_url.as_str());
        html.append("\">");
        html.append(title.as_str());
        html.append("</a></div><p class=\"info\">");
        html.append(u.torrent.category.as_str());
        html.append("</p><p class=\"info\">");
        html.append(u.torrent.upload_date_str.as_str());
        html.append("</p><p class=\"info\">");
        html.append(u.torrent.size.as_str());
        html.append("</p></div>");
    }
    proof {
        assert(html@ =~= email_head_text() + email_panel_text(u@, announce));
    }
    if c_en {
        let ghost base = html@;
        let mut i: usize = 0;
        while i < u.torrent.comments.len()
            invariant
                i <= u.torrent.comments.len(),
                cv == crate::model::thread_view(u.torrent.comments@),
                email_renderable(cv),
                now <= MAX_TIMESTAMP,
                html@ + email_comments_text_from(cv, u.torrent.domain@, now, i as int) == base
                    + email_comments_text_from(cv, u.torrent.domain@, now, 0),
            decreases u.torrent.comments.len() - i,
        {
            let ghost h_old = html@;
            let c = &u.torrent.comments[i];
            let renders = match c.update_type {
                NyaaCommentUpdateType::NEW
                | NyaaCommentUpdateType::EDITED
                | NyaaCommentUpdateType::DELETED => true,
                _ => false,
            };
            if renders {
                let ts: u64 = match c.update_type {
                    NyaaCommentUpdateType::DELETED => now,
                    NyaaCommentUpdateType::EDITED => match c.edited_timestamp {
                        Some(t) => t,
                        None => c.date_timestamp,
                    },
                    _ => c.date_timestamp,
                };
                proof {
                    assert(cv[i as int] == u.torrent.comments@[i as int]@);
                    assert(ts == email_comment_ts(cv[i as int], now));
                    assert(ts <= MAX_TIMESTAMP);
                }
                html.append(
                    "<div class=\"panel panel-default comment-panel\"><div class=\"panel-body\"><div class=\"col-md-2\"><p><a class=\"text-",
                );
                let color = text_color_from_role(c.user.role.clone());
                html.append(color);
                if c.user.banned {
                    html.append(" strike");
                }
                html.append("\" href=\"");
                html.append(&u.torrent.domain.as_str());
                html.append("user/");
                html.append(c.user.username.as_str());
                html.append("\" title=\"User\">");
                html.append(c.user.username.as_str());
                html.append("</a></p><img class=\"avatar\" src=\"");
                match &c.user.avatar {
                    Some(a) => html.append(a.as_str()),
                    None => {},
                }
                proof {
                    assert(html@ =~= h_old + email_comment_text_head(
                        cv[i as int],
                        u.torrent.domain@,
                    ));
                }
                let ghost mid = html@;
                html.append(
                    "\" alt=\"User\"></div><div class=\"col-md-10 comment\"><div class=\"row comment-details\"><a href=\"",
                );
                html.append(c.direct_link.as_str());
                html.append("\"><small data-timestamp-swap>");
                let tstr = format_timestamp(ts);
                html.append(tstr.as_str());
                html.append(
                    "</small></a></div><div class=\"row comment-body\"><div markdown-text class=\"comment-content\" id=\"comment\">",
                );
                html.append(c.message.as_str());
                html.append("</div></div></div></div></div>");
                proof {
                    assert(html@ =~= mid + email_comment_text_tail(cv[i as int], now));
                    assert((h_old + email_comment_text_head(cv[i as int], u.torrent.domain@))
                        + email_comment_text_tail(cv[i as int], now) =~= h_old
                        + email_comment_text(cv[i as int], u.torrent.domain@, now));
                }
            }
            proof {
                let head: Seq<char> = if email_renders(cv[i as int]) {
                    email_comment_text(cv[i as int], u.torrent.domain@, now)
                } else {
                    Seq::empty()
                };
                assert(html@ =~= h_old + head);
                assert((h_old + head) + email_comments_text_from(
                    cv,
                    u.torrent.domain@,
                    now,
                    i as int + 1,
                ) =~= h_old + (head + email_comments_text_from(
                    cv,
                    u.torrent.domain@,
                    now,
                    i as int + 1,
                )));
            }
            i += 1;
        }
        proof {
            assert(email_comments_text_from(cv, u.torrent.domain@, now, cv.len() as int) =~= Seq::<
                char,
            >::empty());
            assert(html@ =~= html@ + Seq::<char>::empty());
        }
    }
    html.append("</div></body></html>");
    html
}

} // verus!
