//! Extraction of the avatar URL from a user's profile page. The page
//! markup itself comes from outside; the extraction here is a pure
//! function of the page text.

use vstd::prelude::*;

use crate::model::{NyaaUser, UserV};
use crate::strutil::{
    spec_ends_with, spec_find_char_from, spec_find_sub_from, spec_starts_with, spec_sub_at,
    spec_trim_end_sub, spec_trim_start_char, str_ends_with, str_find_char_from, str_find_sub,
    str_starts_with, trim_end_sub, trim_start_char,
};

verus! {

/// The document prologue a well-formed page starts with.
pub open spec fn doctype_text() -> Seq<char> {
    "<!DOCTYPE html>"@
}

/// The attribute opener in front of a profile page's avatar URL.
pub open spec fn og_image_marker() -> Seq<char> {
    "<meta property=\"og:image\" content=\""@
}

/// A found occurrence lies in range and matches the pattern.
pub proof fn lemma_find_sub_found(s: Seq<char>, pat: Seq<char>, i: int)
    requires
        spec_find_sub_from(s, pat, i) >= 0,
        i >= 0,
    ensures
        spec_find_sub_from(s, pat, i) + pat.len() <= s.len(),
        spec_find_sub_from(s, pat, i) >= i,
    decreases s.len() - i,
{
    if i + pat.len() > s.len() {
    } else if pat.len() == 0 {
    } else if spec_sub_at(s, pat, i) {
    } else {
        lemma_find_sub_found(s, pat, i + 1);
    }
}

/// The avatar URL a profile page names: the text between the `og:image`
/// attribute opener and the following quote, prefixed with the source's
/// domain when the page gives only a path. A page without the document
/// prologue or without the marker yields the empty string.
pub open spec fn spec_serialize_user_page(html: Seq<char>, domain: Seq<char>) -> Seq<char> {
    if !spec_starts_with(html, doctype_text()) {
        Seq::empty()
    } else {
        let m = spec_find_sub_from(html, og_image_marker(), 0);
        if m < 0 {
            Seq::empty()
        } else {
            let start = m + og_image_marker().len();
            let end = spec_find_char_from(html, '"', start);
            let url = html.subrange(start, end);
            if url.len() > 0 && url[0] == '/' {
                domain + url
            } else {
                url
            }
        }
    }
}

/// Extracts the avatar URL from a user's profile page; see
/// [`spec_serialize_user_page`].
pub fn serialize_user_page(html: &str, domain: &String) -> (r: String)
    ensures
        r@ == spec_serialize_user_page(html@, domain@),
{
    if !str_starts_with(html, "<!DOCTYPE html>") {
        return String::new();
    }
    let marker = "<meta property=\"og:image\" content=\"";
    match str_find_sub(html, marker) {
        None => String::new(),
        Some(m) => {
            let n = html.unicode_len();
            let ml = marker.unicode_len();
            proof {
                lemma_find_sub_found(html@, og_image_marker(), 0);
                assert(m + ml <= n);
            }
            let start = m + ml;
            let end = str_find_char_from(html, '"', start);
            let url = html.substring_char(start, end);
            let takes_domain = if url.unicode_len() > 0 {
                url.get_char(0) == '/'
            } else {
                false
            };
            if takes_domain {
                let mut r = domain.clone();
                r.append(url);
                r
            } else {
                url.to_owned()
            }
        },
    }
}



/// Closer of the trusted-uploader panel on a torrent page.
pub open spec fn panel_success_text() -> Seq<char> {
    "<div class=\"panel panel-success\">"@
}

/// The label line in front of the uploader on a torrent page.
pub open spec fn submitter_text() -> Seq<char> {
    "<div class=\"col-md-1\">Submitter:</div>"@
}

/// The user link marker a named uploader's line carries.
pub open spec fn user_href_text() -> Seq<char> {
    "href=\"/user/"@
}

/// The quoted attribute opener in front of the uploader's role.
pub open spec fn title_marker_text() -> Seq<char> {
    "\" title=\""@
}

/// The seeders label: reached before any submitter link only on pages of
/// anonymous uploads.
pub open spec fn seeders_text() -> Seq<char> {
    "<div class=\"col-md-1\">Seeders:</div>"@
}

/// Markup trimmed off the raw uploader segment.
pub open spec fn uploader_tail_text() -> Seq<char> {
    "</a>\t\t\t</div>"@
}

/// The role, banned flag and uploader name a submitter line yields: the
/// role sits between the title attribute opener and the next quote, the
/// name in the following quote-delimited segment with link markup
/// trimmed. A line without the title attribute changes nothing.
pub open spec fn spec_submitter_parse(
    line: Seq<char>,
    role: Seq<char>,
    banned: bool,
    uploader: Seq<char>,
) -> (Seq<char>, bool, Seq<char>) {
    let m = spec_find_sub_from(line, title_marker_text(), 0);
    if m < 0 {
        (role, banned, uploader)
    } else {
        let rs = m + title_marker_text().len();
        let re = spec_find_char_from(line, '"', rs);
        let role2 = line.subrange(rs, re);
        let banned2 = banned || spec_find_sub_from(role2, "BANNED"@, 0) >= 0;
        if re + 1 > line.len() {
            (role2, banned2, uploader)
        } else {
            let ue = spec_find_char_from(line, '"', re + 1);
            let raw = line.subrange(re + 1, ue);
            let up = spec_trim_end_sub(spec_trim_start_char(raw, '>'), uploader_tail_text());
            (role2, banned2, up)
        }
    }
}

/// The uploader a torrent page names, scanned line by line from position
/// `p` with the role, banned flag, submitter-section flag and name
/// gathered so far. A trusted-panel line fixes the role; once the
/// submitter label passed, the first user link yields the name; a
/// seeders label before any submitter link means an anonymous upload.
pub open spec fn spec_uploader_scan(
    html: Seq<char>,
    p: int,
    role: Seq<char>,
    banned: bool,
    submitter: bool,
    uploader: Seq<char>,
) -> UserV
    decreases html.len() + 1 - p,
{
    if p < 0 || p >= html.len() {
        UserV { anonymous: false, role, username: uploader, avatar: None, banned }
    } else {
        let e0 = spec_find_char_from(html, '\n', p);
        let e = if e0 < p {
            p
        } else if e0 > html.len() {
            html.len() as int
        } else {
            e0
        };
        let line = html.subrange(p, e);
        if spec_ends_with(line, panel_success_text()) {
            spec_uploader_scan(html, e + 1, "Trusted"@, banned, submitter, uploader)
        } else if spec_ends_with(line, submitter_text()) {
            spec_uploader_scan(html, e + 1, role, banned, true, uploader)
        } else if submitter {
            if spec_find_sub_from(line, user_href_text(), 0) >= 0 {
                let parsed = spec_submitter_parse(line, role, banned, uploader);
                if parsed.2.len() > 0 {
                    UserV {
                        anonymous: false,
                        role: parsed.0,
                        username: parsed.2,
                        avatar: None,
                        banned: parsed.1,
                    }
                } else {
                    spec_uploader_scan(html, e + 1, parsed.0, parsed.1, submitter, parsed.2)
                }
            } else {
                spec_uploader_scan(html, e + 1, role, banned, submitter, uploader)
            }
        } else if spec_find_sub_from(line, seeders_text(), 0) >= 0 {
            UserV { anonymous: true, role, username: "Anonymous"@, avatar: None, banned: false }
        } else {
            spec_uploader_scan(html, e + 1, role, banned, submitter, uploader)
        }
    }
}

/// Extracts the uploader a torrent page names, or the anonymous stand-in;
/// see [`spec_uploader_scan`]. A page without the document prologue
/// yields nothing.
#[verifier::rlimit(60)]
pub fn get_uploader_name(html: &str) -> (r: Option<NyaaUser>)
    ensures
        match r {
            None => !spec_starts_with(html@, doctype_text()),
            Some(u) => spec_starts_with(html@, doctype_text()) && u@ == spec_uploader_scan(
                html@,
                0,
                Seq::empty(),
                false,
                false,
                Seq::empty(),
            ),
        },
{
    if !str_starts_with(html, "<!DOCTYPE html>") {
        return None;
    }
    let n = html.unicode_len();
    let mut role = String::new();
    let mut banned = false;
    let mut submitter = false;
    let mut uploader = String::new();
    let mut p: usize = 0;
    while p < n
        invariant
            p <= n,
            n == html@.len(),
            spec_starts_with(html@, doctype_text()),
            spec_uploader_scan(html@, p as int, role@, banned, submitter, uploader@)
                == spec_uploader_scan(html@, 0, Seq::empty(), false, false, Seq::empty()),
        decreases n - p,
    {
        let ghost old_role = role@;
        let ghost old_banned = banned;
        let ghost old_submitter = submitter;
        let ghost old_uploader = uploader@;
        let e = str_find_char_from(html, '\n', p);
        let line = html.substring_char(p, e);
        proof {
            assert(line@ == html@.subrange(p as int, e as int));
        }
        if str_ends_with(line, "<div class=\"panel panel-success\">") {
            role = String::from_str("Trusted");
        } else if str_ends_with(line, "<div class=\"col-md-1\">Submitter:</div>") {
            submitter = true;
        } else if submitter {
            if str_find_sub(line, "href=\"/user/").is_some() {
                let ghost parsed = spec_submitter_parse(line@, old_role, old_banned, old_uploader);
                match str_find_sub(line, "\" title=\"") {
                    None => {},
                    Some(m) => {
                        let lm = line.unicode_len();
                        let tm_str = "\" title=\"";
                        let tm = tm_str.unicode_len();
                        proof {
                            lemma_find_sub_found(line@, title_marker_text(), 0);
                        }
                        let rs = m + tm;
                        let re = str_find_char_from(line, '"', rs);
                        role = line.substring_char(rs, re).to_owned();
                        if str_find_sub(role.as_str(), "BANNED").is_some() {
                            banned = true;
                        }
                        if re < lm {
                            let ue = str_find_char_from(line, '"', re + 1);
                            let raw = line.substring_char(re + 1, ue);
                            proof {
                                reveal_strlit("</a>\t\t\t</div>");
                            }
                            let trimmed = trim_end_sub(
                                trim_start_char(raw, '>'),
                                "</a>\t\t\t</div>",
                            );
                            uploader = trimmed.to_owned();
                            proof {
                                assert((role@, banned, uploader@) == parsed);
                            }
                        } else {
                            proof {
                                assert((role@, banned, uploader@) == parsed);
                            }
                        }
                    },
                }
                proof {
                    assert((role@, banned, uploader@) == parsed);
                }
                if uploader.as_str().unicode_len() > 0 {
                    let u = NyaaUser {
                        anonymous: false,
                        role,
                        username: uploader,
                        avatar: None,
                        banned,
                    };
                    proof {
                        assert(u@ =~= spec_uploader_scan(
                            html@,
                            p as int,
                            old_role,
                            old_banned,
                            old_submitter,
                            old_uploader,
                        ));
                    }
                    return Some(u);
                }
            }
        } else if str_find_sub(line, "<div class=\"col-md-1\">Seeders:</div>").is_some() {
            let u = NyaaUser {
                anonymous: true,
                role,
                username: String::from_str("Anonymous"),
                avatar: None,
                banned: false,
            };
            proof {
                assert(u@ =~= spec_uploader_scan(
                    html@,
                    p as int,
                    old_role,
                    old_banned,
                    old_submitter,
                    old_uploader,
                ));
            }
            return Some(u);
        }
        proof {
            assert(spec_find_char_from(html@, '\n', p as int) == e as int);
            assert(p <= e <= n);
            assert(spec_uploader_scan(html@, p as int, old_role, old_banned, old_submitter,
                old_uploader) == spec_uploader_scan(
                html@,
                e as int + 1,
                role@,
                banned,
                submitter,
                uploader@,
            ));
        }
        if e >= n {
            proof {
                assert(spec_uploader_scan(html@, e as int + 1, role@, banned, submitter, uploader@)
                    == spec_uploader_scan(html@, n as int, role@, banned, submitter, uploader@));
            }
            p = n;
        } else {
            p = e + 1;
        }
    }
    let u = NyaaUser { anonymous: false, role, username: uploader, avatar: None, banned };
    proof {
        assert(u@ =~= spec_uploader_scan(html@, p as int, role@, banned, submitter, uploader@));
    }
    Some(u)
}

} // verus!
