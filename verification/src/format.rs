//! Sink-facing formatting: titles, deep links, per-sink message texts
//! and the JSON framing of the push body. Everything is built by
//! verified concatenation; only timestamp rendering and HTML attribute
//! escaping rely on outside crates, behind trusted wrappers.

use chrono::TimeZone;
use vstd::prelude::*;

use crate::chunk::{fields_view, EmbedField, FieldV};
use crate::model::{NyaaComment, NyaaCommentUpdateType, NyaaTorrent, MAX_TIMESTAMP};
use crate::strutil::{dec_rep, u64_to_string};

verus! {

/// `YYYY-MM-DD hh:mm:ss` rendering of a unix timestamp in UTC. The
/// rendering depends on the timestamp alone.
pub uninterp spec fn utc_datetime_text(ts: u64) -> Seq<char>;

/// Relies on chrono's `TimeZone::timestamp_opt` on `Utc` and
/// `DateTime::format` with the `%Y-%m-%d %H:%M:%S` pattern: in-range
/// timestamps render as a pure function of the value, `Single` is
/// returned for every in-range second, and formatting never fails.
#[verifier::external_body]
pub(crate) fn format_timestamp(ts: u64) -> (r: String)
    requires
        ts <= MAX_TIMESTAMP,
    ensures
        r@ == utc_datetime_text(ts),
{
    chrono::Utc
        .timestamp_opt(ts as i64, 0)
        .single()
        .map(|d| d.format("%Y-%m-%d %H:%M:%S").to_string())
        .unwrap_or_default()
}

/// The entity replacing one character in a quoted HTML attribute: the
/// five reserved characters become entities, everything else stays.
pub open spec fn quoted_attr_entity(c: char) -> Seq<char> {
    if c == '&' {
        "&amp;"@
    } else if c == '<' {
        "&lt;"@
    } else if c == '>' {
        "&gt;"@
    } else if c == '"' {
        "&quot;"@
    } else if c == '\'' {
        "&#x27;"@
    } else {
        seq![c]
    }
}

/// A text with its HTML-reserved characters replaced by entities, fit
/// for a quoted attribute.
pub open spec fn quoted_attr_text(s: Seq<char>) -> Seq<char>
    decreases s.len(),
{
    if s.len() == 0 {
        Seq::empty()
    } else {
        quoted_attr_entity(s[0]) + quoted_attr_text(s.subrange(1, s.len() as int))
    }
}

/// Relies on html_escape's `encode_quoted_attribute`: it replaces
/// exactly `&`, `<`, `>`, `"` and `'` by their entities and leaves every
/// other character unchanged.
#[verifier::external_body]
pub(crate) fn encode_quoted_attribute(s: &str) -> (r: String)
    ensures
        r@ == quoted_attr_text(s@),
{
    html_escape::encode_quoted_attribute(s).to_string()
}

/// The first `limit` characters of a text, with an ellipsis marker
/// appended when something was cut.
pub fn limit_string_length(input: &str, limit: usize) -> (r: String)
    ensures
        input@.len() <= limit ==> r@ == input@,
        input@.len() > limit ==> r@ == input@.take(limit as int) + "..."@,
{
    let n = input.unicode_len();
    if n <= limit {
        input.to_owned()
    } else {
        let cut = input.substring_char(0, limit);
        let mut s = cut.to_owned();
        s.append("...");
        proof {
            assert(input@.subrange(0, limit as int) =~= input@.take(limit as int));
        }
        s
    }
}

/// HTML text color class for a user role: staff and trusted roles get
/// their own, everyone else the default.
pub fn text_color_from_role(role: String) -> (r: &'static str)
    ensures
        r@ == (if role@ == "Administrator"@ {
            "purple"@
        } else if role@ == "Trusted"@ {
            "success"@
        } else {
            "default"@
        }),
{
    proof {
        reveal_strlit("Administrator");
        reveal_strlit("Trusted");
    }
    let admin = String::from_str("Administrator");
    let trusted = String::from_str("Trusted");
    if role == admin {
        "purple"
    } else if role == trusted {
        "success"
    } else {
        "default"
    }
}

/// Deep link to a torrent's page at the source.
pub fn torrent_view_url(domain: &String, id: u64) -> (r: String)
    ensures
        r@ == domain@ + "view/"@ + dec_rep(id as int),
{
    let mut s = domain.clone();
    s.append("view/");
    let n = u64_to_string(id);
    s.append(n.as_str());
    s
}

/// Link to a torrent's `.torrent` file at the source.
pub fn torrent_download_url(domain: &String, id: u64) -> (r: String)
    ensures
        r@ == domain@ + "download/"@ + dec_rep(id as int) + ".torrent"@,
{
    let mut s = domain.clone();
    s.append("download/");
    let n = u64_to_string(id);
    s.append(n.as_str());
    s.append(".torrent");
    s
}

/// Link to a user's page at the source.
pub fn user_url(domain: &String, username: &String) -> (r: String)
    ensures
        r@ == domain@ + "user/"@ + username@,
{
    let mut s = domain.clone();
    s.append("user/");
    s.append(username.as_str());
    s
}

/// Feed page URL for one page number; the feed URL already ends with a
/// query separator.
pub fn page_url(url: &String, page_number: u64) -> (r: String)
    ensures
        r@ == url@ + "p="@ + dec_rep(page_number as int),
{
    let mut s = url.clone();
    s.append("p=");
    let n = u64_to_string(page_number);
    s.append(n.as_str());
    s
}

/// The one-line push message for a new upload: category, size and id.
pub fn gotify_upload_message(t: &NyaaTorrent) -> (r: String)
    ensures
        r@ == t.category@ + " | "@ + t.size@ + " | #"@ + dec_rep(t.id as int),
{
    let mut s = t.category.clone();
    s.append(" | ");
    s.append(t.size.as_str());
    s.append(" | #");
    let n = u64_to_string(t.id);
    s.append(n.as_str());
    s
}

/// The tag a push message carries for a comment's lifecycle state.
pub open spec fn spec_gotify_tag(t: NyaaCommentUpdateType) -> Seq<char> {
    match t {
        NyaaCommentUpdateType::NEW => " [NEW]: "@,
        NyaaCommentUpdateType::EDITED => " [EDITED]: "@,
        NyaaCommentUpdateType::DELETED => " [DELETED]: "@,
        NyaaCommentUpdateType::UNDECIDED => " [UNDECIDED]: "@,
        NyaaCommentUpdateType::UNCHECKED => " [UNCHECKED]: "@,
    }
}

/// The one-line push message for a comment: author, lifecycle tag and
/// message text.
pub fn gotify_comment_message(c: &NyaaComment) -> (r: String)
    ensures
        r@ == c.user.username@ + spec_gotify_tag(c.update_type) + c.message@,
{
    let mut s = c.user.username.clone();
    match c.update_type {
        NyaaCommentUpdateType::NEW => s.append(" [NEW]: "),
        NyaaCommentUpdateType::EDITED => s.append(" [EDITED]: "),
        NyaaCommentUpdateType::DELETED => s.append(" [DELETED]: "),
        NyaaCommentUpdateType::UNDECIDED => s.append(" [UNDECIDED]: "),
        NyaaCommentUpdateType::UNCHECKED => s.append(" [UNCHECKED]: "),
    }
    s.append(c.message.as_str());
    s
}

/// Hexadecimal digit character of a value below sixteen.
pub open spec fn hex_char(d: int) -> char {
    if d < 10 {
        crate::strutil::digit_char(d)
    } else if d == 10 {
        'a'
    } else if d == 11 {
        'b'
    } else if d == 12 {
        'c'
    } else if d == 13 {
        'd'
    } else if d == 14 {
        'e'
    } else {
        'f'
    }
}

/// The JSON escape of one character: quote and backslash get a
/// backslash, the named control characters their short escapes, any
/// other control character a `\u00XX` escape, everything else stays.
pub open spec fn json_escape_char(c: char) -> Seq<char> {
    if c == '"' {
        seq!['\\', '"']
    } else if c == '\\' {
        seq!['\\', '\\']
    } else if c as int == 8 {
        seq!['\\', 'b']
    } else if c as int == 9 {
        seq!['\\', 't']
    } else if c as int == 10 {
        seq!['\\', 'n']
    } else if c as int == 12 {
        seq!['\\', 'f']
    } else if c as int == 13 {
        seq!['\\', 'r']
    } else if (c as int) < 32 {
        seq!['\\', 'u', '0', '0', hex_char(c as int / 16), hex_char(c as int % 16)]
    } else {
        seq![c]
    }
}

/// The JSON escape of the text from character `i` on.
pub open spec fn json_escaped_from(s: Seq<char>, i: int) -> Seq<char>
    decreases s.len() - i,
{
    if i < 0 || i >= s.len() {
        Seq::empty()
    } else {
        json_escape_char(s[i]) + json_escaped_from(s, i + 1)
    }
}

/// The JSON escape of a whole text.
pub open spec fn json_escaped(s: Seq<char>) -> Seq<char> {
    json_escaped_from(s, 0)
}

/// The `&str` holding one lowercase hexadecimal digit.
fn hex_digit_str(d: u32) -> (r: &'static str)
    requires
        d < 16,
    ensures
        r@ == seq![hex_char(d as int)],
{
    let r = match d {
        0 => "0",
        1 => "1",
        2 => "2",
        3 => "3",
        4 => "4",
        5 => "5",
        6 => "6",
        7 => "7",
        8 => "8",
        9 => "9",
        10 => "a",
        11 => "b",
        12 => "c",
        13 => "d",
        14 => "e",
        _ => "f",
    };
    proof {
        reveal_strlit("0");
        reveal_strlit("1");
        reveal_strlit("2");
        reveal_strlit("3");
        reveal_strlit("4");
        reveal_strlit("5");
        reveal_strlit("6");
        reveal_strlit("7");
        reveal_strlit("8");
        reveal_strlit("9");
        reveal_strlit("a");
        reveal_strlit("b");
        reveal_strlit("c");
        reveal_strlit("d");
        reveal_strlit("e");
        reveal_strlit("f");
        assert(r@ =~= seq![hex_char(d as int)]);
    }
    r
}

/// Appends the JSON escape of `s` to `out`.
fn json_escape_append(out: &mut String, s: &str)
    ensures
        final(out)@ == old(out)@ + json_escaped(s@),
{
    let ghost base = old(out)@;
    let n = s.unicode_len();
    let mut i: usize = 0;
    while i < n
        invariant
            i <= n,
            n == s@.len(),
            out@ + json_escaped_from(s@, i as int) == base + json_escaped(s@),
        decreases n - i,
    {
        let ghost out_old = out@;
        let c = s.get_char(i);
        let code = c as u32;
        if c == '"' {
            out.append("\\\"");
            proof {
                reveal_strlit("\\\"");
                assert(out@ =~= out_old + json_escape_char(s@[i as int]));
            }
        } else if c == '\\' {
            out.append("\\\\");
            proof {
                reveal_strlit("\\\\");
                assert(out@ =~= out_old + json_escape_char(s@[i as int]));
            }
        } else if code == 8 {
            out.append("\\b");
            proof {
                reveal_strlit("\\b");
                assert(out@ =~= out_old + json_escape_char(s@[i as int]));
            }
        } else if code == 9 {
            out.append("\\t");
            proof {
                reveal_strlit("\\t");
                assert(out@ =~= out_old + json_escape_char(s@[i as int]));
            }
        } else if code == 10 {
            out.append("\\n");
            proof {
                reveal_strlit("\\n");
                assert(out@ =~= out_old + json_escape_char(s@[i as int]));
            }
        } else if code == 12 {
            out.append("\\f");
            proof {
                reveal_strlit("\\f");
                assert(out@ =~= out_old + json_escape_char(s@[i as int]));
            }
        } else if code == 13 {
            out.append("\\r");
            proof {
                reveal_strlit("\\r");
                assert(out@ =~= out_old + json_escape_char(s@[i as int]));
            }
        } else if code < 32 {
            out.append("\\u00");
            out.append(hex_digit_str(code / 16));
            out.append(hex_digit_str(code % 16));
            proof {
                reveal_strlit("\\u00");
                assert(out@ =~= out_old + json_escape_char(s@[i as int]));
            }
        } else {
            let one = s.substring_char(i, i + 1);
            out.append(one);
            proof {
                assert(one@ =~= seq![s@[i as int]]);
                assert(out@ =~= out_old + json_escape_char(s@[i as int]));
            }
        }
        proof {
            assert((out_old + json_escape_char(s@[i as int])) + json_escaped_from(
                s@,
                i as int + 1,
            ) =~= out_old + (json_escape_char(s@[i as int]) + json_escaped_from(s@, i as int + 1)));
        }
        i += 1;
    }
    proof {
        assert(json_escaped_from(s@, n as int) =~= Seq::<char>::empty());
        assert(out@ =~= out@ + Seq::<char>::empty());
    }
}

/// The JSON body of one push message: an object with the title, the
/// message and the numeric priority, strings JSON-escaped.
pub fn gotify_json_body(title: &str, message: &str, priority: u32) -> (r: String)
    ensures
        r@ == "{\"title\":\""@ + json_escaped(title@) + "\",\"message\":\""@ + json_escaped(
            message@,
        ) + "\",\"priority\":"@ + dec_rep(priority as int) + "}"@,
{
    let mut s = String::from_str("{\"title\":\"");
    json_escape_append(&mut s, title);
    s.append("\",\"message\":\"");
    json_escape_append(&mut s, message);
    s.append("\",\"priority\":");
    let n = u64_to_string(priority as u64);
    s.append(n.as_str());
    s.append("}");
    proof {
        assert(dec_rep(priority as u64 as int) == dec_rep(priority as int));
    }
    s
}



/// One embed field from name, text and the sink's inline flag.
fn field_from(name: &str, text: &str, inline: bool) -> (r: EmbedField)
    ensures
        r@ == (FieldV {
            name: vstd::utf8::encode_utf8(name@),
            text: vstd::utf8::encode_utf8(text@),
            inline,
        }),
{
    let r = EmbedField { name: name.as_bytes_vec(), text: text.as_bytes_vec(), inline };
    proof {
        assert(r@ =~= (FieldV {
            name: vstd::utf8::encode_utf8(name@),
            text: vstd::utf8::encode_utf8(text@),
            inline,
        }));
    }
    r
}

/// The embed fields of an upload notification: category and size, side
/// by side.
pub fn upload_embed_fields(t: &NyaaTorrent) -> (r: Vec<EmbedField>)
    ensures
        fields_view(r@) == seq![
            FieldV {
                name: vstd::utf8::encode_utf8("Category"@),
                text: vstd::utf8::encode_utf8(t.category@),
                inline: true,
            },
            FieldV {
                name: vstd::utf8::encode_utf8("Size"@),
                text: vstd::utf8::encode_utf8(t.size@),
                inline: true,
            },
        ],
{
    let mut r: Vec<EmbedField> = Vec::new();
    r.push(field_from("Category", t.category.as_str(), true));
    r.push(field_from("Size", t.size.as_str(), true));
    proof {
        assert(fields_view(r@) =~= seq![
            FieldV {
                name: vstd::utf8::encode_utf8("Category"@),
                text: vstd::utf8::encode_utf8(t.category@),
                inline: true,
            },
            FieldV {
                name: vstd::utf8::encode_utf8("Size"@),
                text: vstd::utf8::encode_utf8(t.size@),
                inline: true,
            },
        ]);
    }
    r
}

/// The single embed field of a deleted-comment notification: the author
/// marked as deleted, and the last known message.
pub fn deleted_comment_fields(c: &NyaaComment) -> (r: Vec<EmbedField>)
    ensures
        fields_view(r@) == seq![
            FieldV {
                name: vstd::utf8::encode_utf8(c.user.username@ + " (deleted comment)"@),
                text: vstd::utf8::encode_utf8(c.message@),
                inline: false,
            },
        ],
{
    let mut name = c.user.username.clone();
    name.append(" (deleted comment)");
    let mut r: Vec<EmbedField> = Vec::new();
    r.push(field_from(name.as_str(), c.message.as_str(), false));
    proof {
        assert(fields_view(r@) =~= seq![
            FieldV {
                name: vstd::utf8::encode_utf8(c.user.username@ + " (deleted comment)"@),
                text: vstd::utf8::encode_utf8(c.message@),
                inline: false,
            },
        ]);
    }
    r
}

/// The embed fields of an edited-comment notification: the new message
/// in code fences beside the prior one.
pub fn edited_comment_fields(c: &NyaaComment) -> (r: Vec<EmbedField>)
    requires
        c@.old_message is Some,
    ensures
        fields_view(r@) == seq![
            FieldV {
                name: vstd::utf8::encode_utf8(c.user.username@ + " (edited comment)"@),
                text: vstd::utf8::encode_utf8("```"@ + c.message@ + "```"@),
                inline: true,
            },
            FieldV {
                name: vstd::utf8::encode_utf8("New:"@),
                text: vstd::utf8::encode_utf8("```"@ + c@.old_message->Some_0 + "```"@),
                inline: true,
            },
        ],
{
    let mut name = c.user.username.clone();
    name.append(" (edited comment)");
    let mut fenced = String::from_str("```");
    fenced.append(c.message.as_str());
    fenced.append("```");
    let mut old_fenced = String::from_str("```");
    match &c.old_message {
        Some(m) => old_fenced.append(m.as_str()),
        None => {},
    }
    old_fenced.append("```");
    let mut r: Vec<EmbedField> = Vec::new();
    r.push(field_from(name.as_str(), fenced.as_str(), true));
    r.push(field_from("New:", old_fenced.as_str(), true));
    proof {
        assert(fields_view(r@) =~= seq![
            FieldV {
                name: vstd::utf8::encode_utf8(c.user.username@ + " (edited comment)"@),
                text: vstd::utf8::encode_utf8("```"@ + c.message@ + "```"@),
                inline: true,
            },
            FieldV {
                name: vstd::utf8::encode_utf8("New:"@),
                text: vstd::utf8::encode_utf8("```"@ + c@.old_message->Some_0 + "```"@),
                inline: true,
            },
        ]);
    }
    r
}

/// The single embed field of a new-comment notification: the author and
/// the message.
pub fn new_comment_fields(c: &NyaaComment) -> (r: Vec<EmbedField>)
    ensures
        fields_view(r@) == seq![
            FieldV {
                name: vstd::utf8::encode_utf8(c.user.username@),
                text: vstd::utf8::encode_utf8(c.message@),
                inline: false,
            },
        ],
{
    let mut r: Vec<EmbedField> = Vec::new();
    r.push(field_from(c.user.username.as_str(), c.message.as_str(), false));
    proof {
        assert(fields_view(r@) =~= seq![
            FieldV {
                name: vstd::utf8::encode_utf8(c.user.username@),
                text: vstd::utf8::encode_utf8(c.message@),
                inline: false,
            },
        ]);
    }
    r
}
} // verus!
