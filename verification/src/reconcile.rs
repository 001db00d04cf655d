//! The reconciler: comment-level diff between a fresh snapshot and the
//! persisted baseline, and the per-torrent event decision.
//!
//! All decisions are pure functions of the snapshot values and the clock
//! value handed in; fetching itself happens outside the library, which is
//! told through the `needs_detail` predicates what to load and hands the
//! outcome back as an argument.

use vstd::prelude::*;

use crate::config::{comments_enabled, wf_module, ModuleConfig, ModuleType};
use crate::model::{
    duplicate_opt_string,
    key_eq, thread_has_key, thread_view, unique_keys, wf_comment, wf_thread, CommentV,
    NyaaComment, NyaaCommentUpdateType, NyaaTorrent, NyaaUpdate, NyaaUser, TorrentV, UpdateV,
    UserV,
};

verus! {

/// Number of seconds after a comment's creation during which an
/// `UNCHECKED` comment is still re-examined for silent edits.
pub const FRESHNESS_WINDOW_SECS: u64 = 3600;

/// A comment state that makes the comment part of a notifiable change.
pub open spec fn is_changed(t: NyaaCommentUpdateType) -> bool {
    t is NEW || t is EDITED || t is DELETED
}

/// An `UNCHECKED` comment still young enough to be re-examined for silent
/// edits: its creation timestamp is less than the freshness window ago.
pub open spec fn eligible_for_recheck(c: CommentV, now: u64) -> bool {
    c.update_type is UNCHECKED && now < c.date_timestamp + FRESHNESS_WINDOW_SECS
}

/// Index of the first comment of `s` sharing `c`'s identity key.
/// Meaningful only when `thread_has_key(s, c)`.
pub open spec fn key_index(s: Seq<CommentV>, c: CommentV) -> int
    decreases s.len(),
{
    if s.len() == 0 {
        0
    } else if key_eq(s[0], c) {
        0
    } else {
        1 + key_index(s.subrange(1, s.len() as int), c)
    }
}

/// When the key is present, `key_index` names its first occurrence.
pub proof fn lemma_key_index(s: Seq<CommentV>, c: CommentV)
    requires
        thread_has_key(s, c),
    ensures
        0 <= key_index(s, c) < s.len(),
        key_eq(s[key_index(s, c)], c),
        forall|j: int| 0 <= j < key_index(s, c) ==> !key_eq(s[j], c),
    decreases s.len(),
{
    if s.len() == 0 {
    } else if key_eq(s[0], c) {
    } else {
        let t = s.subrange(1, s.len() as int);
        assert(thread_has_key(t, c)) by {
            let i = choose|i: int| 0 <= i < s.len() && key_eq(s[i], c);
            assert(t[i - 1] == s[i]);
        }
        lemma_key_index(t, c);
        assert forall|j: int| 0 <= j < key_index(s, c) implies !key_eq(s[j], c) by {
            if j > 0 {
                assert(s[j] == t[j - 1]);
            }
        }
    }
}

/// The first occurrence is the key index.
pub proof fn lemma_key_index_of(s: Seq<CommentV>, c: CommentV, i: int)
    requires
        0 <= i < s.len(),
        key_eq(s[i], c),
        forall|j: int| 0 <= j < i ==> !key_eq(s[j], c),
    ensures
        key_index(s, c) == i,
{
    assert(thread_has_key(s, c));
    lemma_key_index(s, c);
    let k = key_index(s, c);
    if k < i {
        assert(!key_eq(s[k], c));
    } else if k > i {
        assert(!key_eq(s[i], c));
    }
}

/// Whether the fresh copy of a comment counts as silently edited relative
/// to the persisted copy: it carries an edited timestamp that differs from
/// the persisted one, and the message text differs too.
pub open spec fn is_edit_of(fresh: CommentV, db: CommentV) -> bool {
    &&& fresh.edited_timestamp is Some
    &&& fresh.edited_timestamp != db.edited_timestamp
    &&& fresh.message != db.message
}

/// The `EDITED` record emitted for a changed comment: the fresh content,
/// with the persisted message and edited timestamp carried along.
pub open spec fn edited_record(fresh: CommentV, db: CommentV) -> CommentV {
    CommentV {
        old_message: Some(db.message),
        old_edited_timestamp: db.edited_timestamp,
        update_type: NyaaCommentUpdateType::EDITED,
        ..fresh
    }
}

/// Classification of one fresh comment against the persisted thread:
/// `NEW` when its key is absent, `EDITED` when present and silently
/// edited, otherwise the persisted copy is passed through verbatim.
pub open spec fn classify_fresh(c: CommentV, db: Seq<CommentV>) -> CommentV {
    if !thread_has_key(db, c) {
        CommentV { update_type: NyaaCommentUpdateType::NEW, ..c }
    } else {
        let d = db[key_index(db, c)];
        if is_edit_of(c, d) {
            edited_record(c, d)
        } else {
            d
        }
    }
}

/// The fresh-side half of the diff, in thread order.
pub open spec fn spec_diff_fresh(fresh: Seq<CommentV>, db: Seq<CommentV>) -> Seq<CommentV> {
    Seq::new(fresh.len(), |i: int| classify_fresh(fresh[i], db))
}

/// Persisted comments from index `i` on whose key is absent from the
/// fresh thread, each flagged `DELETED`.
pub open spec fn spec_deleted_from(fresh: Seq<CommentV>, db: Seq<CommentV>, i: int) -> Seq<
    CommentV,
>
    decreases db.len() - i,
{
    if i < 0 || i >= db.len() {
        Seq::empty()
    } else {
        let head: Seq<CommentV> = if !thread_has_key(fresh, db[i]) {
            seq![CommentV { update_type: NyaaCommentUpdateType::DELETED, ..db[i] }]
        } else {
            Seq::empty()
        };
        head + spec_deleted_from(fresh, db, i + 1)
    }
}

/// Persisted comments whose key is absent from the fresh thread, flagged
/// `DELETED`, in persisted order.
pub open spec fn spec_deleted(fresh: Seq<CommentV>, db: Seq<CommentV>) -> Seq<CommentV> {
    spec_deleted_from(fresh, db, 0)
}

/// The comment-level diff: every fresh comment classified in thread
/// order, followed by the persisted-only comments flagged `DELETED`.
pub open spec fn spec_diff(fresh: Seq<CommentV>, db: Seq<CommentV>) -> Seq<CommentV> {
    spec_diff_fresh(fresh, db) + spec_deleted(fresh, db)
}

/// Some comment of the thread is `NEW`, `EDITED` or `DELETED`.
pub open spec fn spec_has_change(s: Seq<CommentV>) -> bool {
    exists|i: int| 0 <= i < s.len() && is_changed(s[i].update_type)
}

/// First index of `db` sharing `c`'s identity key, if any.
fn find_key_index(db: &Vec<NyaaComment>, c: &NyaaComment) -> (r: Option<usize>)
    ensures
        match r {
            Some(i) => thread_has_key(thread_view(db@), c@) && i == key_index(
                thread_view(db@),
                c@,
            ),
            None => !thread_has_key(thread_view(db@), c@),
        },
{
    let ghost dv = thread_view(db@);
    let mut i: usize = 0;
    while i < db.len()
        invariant
            i <= db.len(),
            dv == thread_view(db@),
            forall|j: int| 0 <= j < i ==> !key_eq(dv[j], c@),
        decreases db.len() - i,
    {
        if db[i].user.username == c.user.username && db[i].date_timestamp == c.date_timestamp {
            proof {
                assert(key_eq(dv[i as int], c@));
                lemma_key_index_of(dv, c@, i as int);
            }
            return Some(i);
        }
        i += 1;
    }
    proof {
        assert(!thread_has_key(dv, c@));
    }
    None
}

/// Comment-level diff between the fully loaded fresh thread and the
/// persisted thread, by identity key (username, creation timestamp).
///
/// Fresh comments absent from the persisted thread come back `NEW`;
/// present ones whose edited timestamp and message both differ come back
/// `EDITED` carrying the persisted message; unchanged ones pass the
/// persisted copy through verbatim. Persisted comments absent from the
/// fresh thread are appended flagged `DELETED`.
pub fn find_comment_changes(fresh: &Vec<NyaaComment>, db: &Vec<NyaaComment>) -> (r: Vec<
    NyaaComment,
>)
    ensures
        thread_view(r@) == spec_diff(thread_view(fresh@), thread_view(db@)),
{
    let ghost fv = thread_view(fresh@);
    let ghost dv = thread_view(db@);
    let mut r: Vec<NyaaComment> = Vec::new();
    let mut i: usize = 0;
    while i < fresh.len()
        invariant
            i <= fresh.len(),
            fv == thread_view(fresh@),
            dv == thread_view(db@),
            r@.len() == i,
            forall|j: int| 0 <= j < i ==> #[trigger] r@[j]@ == classify_fresh(fv[j], dv),
        decreases fresh.len() - i,
    {
        let c = &fresh[i];
        match find_key_index(db, c) {
            None => {
                r.push(c.with_type(NyaaCommentUpdateType::NEW));
                proof {
                    assert(r@[i as int]@ =~= classify_fresh(fv[i as int], dv));
                }
            },
            Some(j) => {
                proof {
                    lemma_key_index(dv, fv[i as int]);
                }
                let d = &db[j];
                let edited = match (c.edited_timestamp, d.edited_timestamp) {
                    (Some(a), Some(b)) => a != b,
                    (Some(_), None) => true,
                    (None, _) => false,
                };
                if edited && !(c.message == d.message) {
                    let mut e = c.duplicate();
                    e.old_message = Some(d.message.clone());
                    e.old_edited_timestamp = d.edited_timestamp;
                    e.update_type = NyaaCommentUpdateType::EDITED;
                    r.push(e);
                    proof {
                        assert(is_edit_of(fv[i as int], dv[j as int]));
                        assert(r@[i as int]@ =~= classify_fresh(fv[i as int], dv));
                    }
                } else {
                    r.push(d.duplicate());
                    proof {
                        assert(!is_edit_of(fv[i as int], dv[j as int]));
                        assert(r@[i as int]@ =~= classify_fresh(fv[i as int], dv));
                    }
                }
            },
        }
        i += 1;
    }
    proof {
        assert(r@.len() == fv.len());
        assert(forall|j: int|
            0 <= j < fv.len() ==> #[trigger] thread_view(r@)[j] == classify_fresh(fv[j], dv));
    }
    let mut k: usize = 0;
    while k < db.len()
        invariant
            k <= db.len(),
            fv == thread_view(fresh@),
            dv == thread_view(db@),
            thread_view(r@) + spec_deleted_from(fv, dv, k as int) == spec_diff(fv, dv),
        decreases db.len() - k,
    {
        let ghost r_old = thread_view(r@);
        match find_key_index(fresh, &db[k]) {
            Some(_) => {
                proof {
                    assert(spec_deleted_from(fv, dv, k as int) == spec_deleted_from(
                        fv,
                        dv,
                        k as int + 1,
                    ));
                }
            },
            None => {
                r.push(db[k].with_type(NyaaCommentUpdateType::DELETED));
                proof {
                    let ghost d = CommentV {
                        update_type: NyaaCommentUpdateType::DELETED,
                        ..dv[k as int]
                    };
                    assert(thread_view(r@) =~= r_old + seq![d]);
                    assert(spec_deleted_from(fv, dv, k as int) =~= seq![d] + spec_deleted_from(
                        fv,
                        dv,
                        k as int + 1,
                    ));
                    assert((r_old + seq![d]) + spec_deleted_from(fv, dv, k as int + 1) =~= r_old
                        + spec_deleted_from(fv, dv, k as int));
                }
            },
        }
        k += 1;
    }
    proof {
        assert(spec_deleted_from(fv, dv, db@.len() as int) =~= Seq::<CommentV>::empty());
        assert(thread_view(r@) =~= thread_view(r@) + Seq::<CommentV>::empty());
    }
    r
}

/// Whether some comment of the thread is `NEW`, `EDITED` or `DELETED`,
/// which is what makes an update worth emitting.
pub fn thread_has_change(v: &Vec<NyaaComment>) -> (r: bool)
    ensures
        r == spec_has_change(thread_view(v@)),
{
    let ghost sv = thread_view(v@);
    let mut i: usize = 0;
    while i < v.len()
        invariant
            i <= v.len(),
            sv == thread_view(v@),
            forall|j: int| 0 <= j < i ==> !is_changed(sv[j].update_type),
        decreases v.len() - i,
    {
        match v[i].update_type {
            NyaaCommentUpdateType::NEW
            | NyaaCommentUpdateType::EDITED
            | NyaaCommentUpdateType::DELETED => {
                proof {
                    assert(is_changed(sv[i as int].update_type));
                }
                return true;
            },
            _ => {},
        }
        i += 1;
    }
    false
}

/// Whether some persisted `UNCHECKED` comment is still inside the
/// freshness window at `now` and must be re-diffed.
pub fn any_eligible_for_recheck(v: &Vec<NyaaComment>, now: u64) -> (r: bool)
    requires
        wf_thread(thread_view(v@)),
    ensures
        r == exists|i: int|
            0 <= i < v@.len() && eligible_for_recheck(#[trigger] thread_view(v@)[i], now),
{
    let ghost sv = thread_view(v@);
    let mut i: usize = 0;
    while i < v.len()
        invariant
            i <= v.len(),
            sv == thread_view(v@),
            wf_thread(sv),
            forall|j: int| 0 <= j < i ==> !eligible_for_recheck(#[trigger] sv[j], now),
        decreases v.len() - i,
    {
        if matches!(v[i].update_type, NyaaCommentUpdateType::UNCHECKED) {
            proof {
                assert(wf_comment(sv[i as int]));
            }
            if now < v[i].date_timestamp + FRESHNESS_WINDOW_SECS {
                proof {
                    assert(eligible_for_recheck(sv[i as int], now));
                }
                return true;
            }
        }
        i += 1;
    }
    false
}



/// A whole thread under one lifecycle state.
pub open spec fn marked_thread(s: Seq<CommentV>, t: NyaaCommentUpdateType) -> Seq<CommentV> {
    s.map_values(|c: CommentV| CommentV { update_type: t, ..c })
}

/// The update synthesized when the source reports a thread emptied: every
/// persisted comment flagged `DELETED`, the counter zeroed, no fetch.
pub open spec fn spec_deletion_synthesis(db: TorrentV) -> UpdateV {
    UpdateV {
        new_upload: false,
        torrent: TorrentV {
            comments: marked_thread(db.comments, NyaaCommentUpdateType::DELETED),
            comments_amount: 0,
            ..db
        },
    }
}

/// The torrent whose thread the diff runs over: the fresh snapshot when
/// its thread is already loaded, otherwise the fetched detail if the
/// fetch succeeded.
pub open spec fn eff_torrent(fresh: TorrentV, detail: Option<TorrentV>) -> Option<TorrentV> {
    if fresh.comments.len() > 0 {
        Some(fresh)
    } else {
        detail
    }
}

/// Event decision for a torrent already present in the persisted state.
///
/// With comment notifications off there is nothing to compare. A changed
/// comment counter triggers either deletion synthesis (counter dropped to
/// zero) or a full diff; an unchanged nonzero counter still triggers a
/// diff while some persisted `UNCHECKED` comment sits inside the
/// freshness window. A diff emits an update exactly when it found a
/// `NEW`, `EDITED` or `DELETED` comment. A needed thread that could not
/// be loaded (`eff_torrent` is `None`) skips the torrent for this cycle.
pub open spec fn spec_known_event(
    c_en: bool,
    fresh: TorrentV,
    db: TorrentV,
    detail: Option<TorrentV>,
    now: u64,
) -> Option<UpdateV> {
    if !c_en {
        None
    } else if fresh.comments_amount != db.comments_amount {
        if fresh.comments_amount == 0 {
            Some(spec_deletion_synthesis(db))
        } else {
            spec_diff_event(fresh, db, detail)
        }
    } else if db.comments_amount != 0 && (exists|i: int|
        0 <= i < db.comments.len() && eligible_for_recheck(#[trigger] db.comments[i], now)) {
        spec_diff_event(fresh, db, detail)
    } else {
        None
    }
}

/// The diff-and-emit step shared by both triggering branches.
pub open spec fn spec_diff_event(
    fresh: TorrentV,
    db: TorrentV,
    detail: Option<TorrentV>,
) -> Option<UpdateV> {
    match eff_torrent(fresh, detail) {
        None => None,
        Some(t) => {
            let d = spec_diff(t.comments, db.comments);
            if spec_has_change(d) {
                Some(UpdateV { new_upload: false, torrent: TorrentV { comments: d, ..t } })
            } else {
                None
            }
        },
    }
}

/// View of an optional torrent reference.
pub open spec fn opt_torrent_view(d: Option<&NyaaTorrent>) -> Option<TorrentV> {
    match d {
        Some(t) => Some(t@),
        None => None,
    }
}

/// View of an optional emitted update.
pub open spec fn opt_update_view(r: Option<NyaaUpdate>) -> Option<UpdateV> {
    match r {
        Some(u) => Some(u@),
        None => None,
    }
}

/// The whole thread under one lifecycle state.
pub fn mark_thread(v: &Vec<NyaaComment>, t: NyaaCommentUpdateType) -> (r: Vec<NyaaComment>)
    ensures
        thread_view(r@) == marked_thread(thread_view(v@), t),
{
    let mut r: Vec<NyaaComment> = Vec::new();
    let mut i: usize = 0;
    while i < v.len()
        invariant
            i <= v.len(),
            r@.len() == i,
            forall|j: int|
                0 <= j < i ==> #[trigger] r@[j]@ == (CommentV { update_type: t, ..v@[j]@ }),
        decreases v.len() - i,
    {
        r.push(v[i].with_type(t));
        i += 1;
    }
    proof {
        assert(thread_view(r@) =~= marked_thread(thread_view(v@), t));
    }
    r
}

/// Reads the comment toggle of a well-formed module.
fn module_comments(module: &ModuleConfig) -> (r: bool)
    requires
        wf_module(*module),
    ensures
        r == comments_enabled(*module),
{
    match module.comments {
        Some(b) => b,
        None => false,
    }
}

/// Event decision for a torrent whose id is already persisted; see
/// [`spec_known_event`]. `detail` is the outcome of the detail fetch the
/// caller performed if the thread was needed: `None` means not fetched or
/// failed, and skips the torrent for this cycle.
pub fn known_torrent_event(
    module: &ModuleConfig,
    fresh: &NyaaTorrent,
    db: &NyaaTorrent,
    detail: Option<&NyaaTorrent>,
    now: u64,
) -> (r: Option<NyaaUpdate>)
    requires
        wf_module(*module),
        wf_thread(thread_view(db.comments@)),
    ensures
        opt_update_view(r) == spec_known_event(
            comments_enabled(*module),
            fresh@,
            db@,
            opt_torrent_view(detail),
            now,
        ),
{
    if !module_comments(module) {
        return None;
    }
    if fresh.comments_amount != db.comments_amount {
        if fresh.comments_amount == 0 {
            let mut torrent = db.duplicate();
            torrent.comments = mark_thread(&db.comments, NyaaCommentUpdateType::DELETED);
            torrent.comments_amount = 0;
            let u = NyaaUpdate { new_upload: false, torrent };
            proof {
                assert(u@ =~= spec_deletion_synthesis(db@));
            }
            Some(u)
        } else {
            diff_event(fresh, db, detail)
        }
    } else if db.comments_amount != 0 && any_eligible_for_recheck(&db.comments, now) {
        diff_event(fresh, db, detail)
    } else {
        None
    }
}

/// The diff-and-emit step shared by both triggering branches; see
/// [`spec_diff_event`].
fn diff_event(fresh: &NyaaTorrent, db: &NyaaTorrent, detail: Option<&NyaaTorrent>) -> (r: Option<
    NyaaUpdate,
>)
    ensures
        opt_update_view(r) == spec_diff_event(fresh@, db@, opt_torrent_view(detail)),
{
    let eff: &NyaaTorrent = if fresh.comments.len() > 0 {
        fresh
    } else {
        match detail {
            Some(t) => t,
            None => {
                return None;
            },
        }
    };
    let d = find_comment_changes(&eff.comments, &db.comments);
    if thread_has_change(&d) {
        let mut torrent = eff.duplicate();
        torrent.comments = d;
        let u = NyaaUpdate { new_upload: false, torrent };
        proof {
            assert(u@.torrent =~= (TorrentV {
                comments: spec_diff(eff@.comments, db@.comments),
                ..eff@
            }));
        }
        Some(u)
    } else {
        None
    }
}


/// Whether a new torrent's event needs a detail fetch first: its thread
/// is not loaded although the source counts comments and the destination
/// wants them, or the destination needs the uploader identity and the
/// snapshot lacks it.
pub open spec fn spec_new_needs_detail(c_en: bool, needs_uploader: bool, t: TorrentV) -> bool {
    ||| (t.comments.len() == 0 && t.comments_amount != 0 && c_en)
    ||| (needs_uploader && t.uploader is None)
}

/// The stand-in uploader for an anonymous upload, pointing at the
/// source's default avatar.
pub open spec fn spec_anonymous_user(domain: Seq<char>) -> UserV {
    UserV {
        anonymous: true,
        role: "User"@,
        username: "Anonymous"@,
        avatar: Some(domain + "static/img/avatar/default.png"@),
        banned: false,
    }
}

/// Event decision for a torrent absent from the persisted state.
///
/// If a detail fetch was needed but failed, the torrent is skipped this
/// cycle (it stays absent from the store and is retried next poll). Every
/// comment of the emitted torrent is tagged `NEW`. A destination that
/// needs the uploader identity gets it resolved: an anonymous upload is
/// given the stand-in user, otherwise the avatar handed in is attached,
/// and a missing avatar skips the torrent.
pub open spec fn spec_new_event(
    c_en: bool,
    needs_uploader: bool,
    fresh: TorrentV,
    detail: Option<TorrentV>,
    avatar: Option<Seq<char>>,
) -> Option<UpdateV> {
    let eff = if spec_new_needs_detail(c_en, needs_uploader, fresh) {
        detail
    } else {
        Some(fresh)
    };
    match eff {
        None => None,
        Some(t) => {
            let marked = TorrentV {
                comments: marked_thread(t.comments, NyaaCommentUpdateType::NEW),
                ..t
            };
            if needs_uploader {
                match marked.uploader {
                    None => None,
                    Some(u) => if u.anonymous {
                        Some(
                            UpdateV {
                                new_upload: true,
                                torrent: TorrentV {
                                    uploader: Some(spec_anonymous_user(marked.domain)),
                                    ..marked
                                },
                            },
                        )
                    } else {
                        match avatar {
                            None => None,
                            Some(a) => Some(
                                UpdateV {
                                    new_upload: true,
                                    torrent: TorrentV {
                                        uploader: Some(UserV { avatar: Some(a), ..u }),
                                        ..marked
                                    },
                                },
                            ),
                        }
                    },
                }
            } else {
                Some(UpdateV { new_upload: true, torrent: marked })
            }
        },
    }
}

/// Whether a known torrent's event needs its full thread fetched first:
/// comment notifications are on, the snapshot's thread is not loaded,
/// and either the comment counter moved to a nonzero value or some
/// persisted `UNCHECKED` comment is still inside the freshness window.
pub fn known_torrent_needs_detail(
    module: &ModuleConfig,
    fresh: &NyaaTorrent,
    db: &NyaaTorrent,
    now: u64,
) -> (r: bool)
    requires
        wf_module(*module),
        wf_thread(thread_view(db.comments@)),
    ensures
        r == (comments_enabled(*module) && fresh@.comments.len() == 0 && (
        (fresh.comments_amount != db.comments_amount && fresh.comments_amount != 0) || (
        fresh.comments_amount == db.comments_amount && db.comments_amount != 0 && exists|i: int|
            0 <= i < db@.comments.len() && eligible_for_recheck(
                #[trigger] db@.comments[i],
                now,
            )))),
{
    let c_en = module_comments(module);
    c_en && fresh.comments.len() == 0 && ((fresh.comments_amount != db.comments_amount
        && fresh.comments_amount != 0) || (fresh.comments_amount == db.comments_amount
        && db.comments_amount != 0 && any_eligible_for_recheck(&db.comments, now)))
}

/// Whether the destination needs the uploader identity resolved: only the
/// Discord sink renders it.
pub fn module_needs_uploader(module: &ModuleConfig) -> (r: bool)
    ensures
        r == (module.module_type is Discord),
{
    matches!(module.module_type, ModuleType::Discord)
}

/// Whether a new torrent's event needs a detail fetch before it can be
/// emitted; see [`spec_new_needs_detail`].
pub fn new_torrent_needs_detail(module: &ModuleConfig, t: &NyaaTorrent) -> (r: bool)
    requires
        wf_module(*module),
    ensures
        r == spec_new_needs_detail(
            comments_enabled(*module),
            module.module_type is Discord,
            t@,
        ),
{
    let c_en = module_comments(module);
    let needs_uploader = module_needs_uploader(module);
    (t.comments.len() == 0 && t.comments_amount != 0 && c_en) || (needs_uploader
        && t.uploader.is_none())
}

/// Event decision for a torrent absent from the persisted state; see
/// [`spec_new_event`]. `detail` is the outcome of the detail fetch if one
/// was needed, `avatar` the outcome of the avatar lookup if the
/// destination needs the uploader rendered.
pub fn new_torrent_event(
    module: &ModuleConfig,
    fresh: &NyaaTorrent,
    detail: Option<&NyaaTorrent>,
    avatar: Option<String>,
) -> (r: Option<NyaaUpdate>)
    requires
        wf_module(*module),
    ensures
        opt_update_view(r) == spec_new_event(
            comments_enabled(*module),
            module.module_type is Discord,
            fresh@,
            opt_torrent_view(detail),
            match avatar {
                Some(a) => Some(a@),
                None => None,
            },
        ),
{
    let needs_uploader = module_needs_uploader(module);
    let eff: &NyaaTorrent = if new_torrent_needs_detail(module, fresh) {
        match detail {
            Some(t) => t,
            None => {
                return None;
            },
        }
    } else {
        fresh
    };
    let mut torrent = eff.duplicate();
    torrent.comments = mark_thread(&eff.comments, NyaaCommentUpdateType::NEW);
    let ghost marked = TorrentV {
        comments: marked_thread(eff@.comments, NyaaCommentUpdateType::NEW),
        ..eff@
    };
    proof {
        assert(torrent@ =~= marked);
    }
    if needs_uploader {
        let anon = match &torrent.uploader {
            None => {
                return None;
            },
            Some(u) => u.anonymous,
        };
        if anon {
            let avatar_url = torrent.domain.clone().concat("static/img/avatar/default.png");
            torrent.uploader = Some(
                NyaaUser {
                    anonymous: true,
                    role: String::from_str("User"),
                    username: String::from_str("Anonymous"),
                    avatar: Some(avatar_url),
                    banned: false,
                },
            );
            let u = NyaaUpdate { new_upload: true, torrent };
            proof {
                assert(u@ =~= (UpdateV {
                    new_upload: true,
                    torrent: TorrentV {
                        uploader: Some(spec_anonymous_user(marked.domain)),
                        ..marked
                    },
                }));
            }
            Some(u)
        } else {
            match avatar {
                None => None,
                Some(a) => {
                    let mut uploader = match &torrent.uploader {
                        Some(u) => u.duplicate(),
                        None => {
                            return None;
                        },
                    };
                    let ghost uv = uploader@;
                    uploader.avatar = Some(a);
                    torrent.uploader = Some(uploader);
                    let u = NyaaUpdate { new_upload: true, torrent };
                    proof {
                        assert(u@ =~= (UpdateV {
                            new_upload: true,
                            torrent: TorrentV {
                                uploader: Some(UserV { avatar: Some(a@), ..uv }),
                                ..marked
                            },
                        }));
                    }
                    Some(u)
                },
            }
        }
    } else {
        let u = NyaaUpdate { new_upload: true, torrent };
        proof {
            assert(u@ =~= (UpdateV { new_upload: true, torrent: marked }));
        }
        Some(u)
    }
}


/// Some persisted torrent carries this id.
pub open spec fn has_id(s: Seq<TorrentV>, id: u64) -> bool {
    exists|i: int| 0 <= i < s.len() && s[i].id == id
}

/// Index of the first torrent of `s` with this id. Meaningful only when
/// `has_id(s, id)`.
pub open spec fn id_index(s: Seq<TorrentV>, id: u64) -> int
    decreases s.len(),
{
    if s.len() == 0 {
        0
    } else if s[0].id == id {
        0
    } else {
        1 + id_index(s.subrange(1, s.len() as int), id)
    }
}

/// When the id is present, `id_index` names its first occurrence.
pub proof fn lemma_id_index(s: Seq<TorrentV>, id: u64)
    requires
        has_id(s, id),
    ensures
        0 <= id_index(s, id) < s.len(),
        s[id_index(s, id)].id == id,
        forall|j: int| 0 <= j < id_index(s, id) ==> s[j].id != id,
    decreases s.len(),
{
    if s.len() == 0 {
    } else if s[0].id == id {
    } else {
        let t = s.subrange(1, s.len() as int);
        assert(has_id(t, id)) by {
            let i = choose|i: int| 0 <= i < s.len() && s[i].id == id;
            assert(t[i - 1] == s[i]);
        }
        lemma_id_index(t, id);
        assert forall|j: int| 0 <= j < id_index(s, id) implies s[j].id != id by {
            if j > 0 {
                assert(s[j] == t[j - 1]);
            }
        }
    }
}

/// View of a list of torrents.
pub open spec fn torrents_view(s: Seq<NyaaTorrent>) -> Seq<TorrentV> {
    s.map_values(|t: NyaaTorrent| t@)
}

/// View of a list of updates.
pub open spec fn updates_view(s: Seq<NyaaUpdate>) -> Seq<UpdateV> {
    s.map_values(|u: NyaaUpdate| u@)
}

/// View of per-torrent detail-fetch outcomes.
pub open spec fn details_view(s: Seq<Option<NyaaTorrent>>) -> Seq<Option<TorrentV>> {
    s.map_values(
        |d: Option<NyaaTorrent>|
            match d {
                Some(t) => Some(t@),
                None => None,
            },
    )
}

/// View of per-torrent avatar-lookup outcomes.
pub open spec fn avatars_view(s: Seq<Option<String>>) -> Seq<Option<Seq<char>>> {
    s.map_values(
        |a: Option<String>|
            match a {
                Some(x) => Some(x@),
                None => None,
            },
    )
}

/// First persisted torrent carrying this id, if any.
pub fn find_torrent_by_id<'a>(persisted: &'a Vec<NyaaTorrent>, id: u64) -> (r: Option<
    &'a NyaaTorrent,
>)
    ensures
        match r {
            Some(t) => has_id(torrents_view(persisted@), id) && t@ == torrents_view(persisted@)[
                id_index(torrents_view(persisted@), id)
            ],
            None => !has_id(torrents_view(persisted@), id),
        },
{
    let ghost pv = torrents_view(persisted@);
    let mut i: usize = 0;
    while i < persisted.len()
        invariant
            i <= persisted.len(),
            pv == torrents_view(persisted@),
            forall|j: int| 0 <= j < i ==> pv[j].id != id,
        decreases persisted.len() - i,
    {
        if persisted[i].id == id {
            proof {
                assert(pv[i as int] == persisted@[i as int]@);
                assert(pv[i as int].id == id);
                assert(has_id(pv, id));
                lemma_id_index(pv, id);
                if id_index(pv, id) < i {
                    assert(pv[id_index(pv, id)].id != id);
                }
            }
            return Some(&persisted[i]);
        }
        i += 1;
    }
    None
}

/// The event a single fresh torrent contributes: the known-torrent
/// decision when its id is persisted, the new-torrent decision otherwise.
pub open spec fn spec_torrent_event(
    c_en: bool,
    needs_uploader: bool,
    fresh: TorrentV,
    persisted: Seq<TorrentV>,
    detail: Option<TorrentV>,
    avatar: Option<Seq<char>>,
    now: u64,
) -> Option<UpdateV> {
    if has_id(persisted, fresh.id) {
        spec_known_event(c_en, fresh, persisted[id_index(persisted, fresh.id)], detail, now)
    } else {
        spec_new_event(c_en, needs_uploader, fresh, detail, avatar)
    }
}

/// The events of the fresh torrents from index `i` on, in feed order.
pub open spec fn spec_reconcile_from(
    c_en: bool,
    needs_uploader: bool,
    fresh: Seq<TorrentV>,
    persisted: Seq<TorrentV>,
    details: Seq<Option<TorrentV>>,
    avatars: Seq<Option<Seq<char>>>,
    now: u64,
    i: int,
) -> Seq<UpdateV>
    decreases fresh.len() - i,
{
    if i < 0 || i >= fresh.len() {
        Seq::empty()
    } else {
        let head: Seq<UpdateV> = match spec_torrent_event(
            c_en,
            needs_uploader,
            fresh[i],
            persisted,
            details[i],
            avatars[i],
            now,
        ) {
            Some(u) => seq![u],
            None => Seq::empty(),
        };
        head + spec_reconcile_from(c_en, needs_uploader, fresh, persisted, details, avatars, now, i + 1)
    }
}

/// The ordered list of updates one poll cycle emits for one feed; see
/// [`spec_known_event`] and [`spec_new_event`] for the per-torrent
/// decisions.
pub open spec fn spec_reconcile(
    c_en: bool,
    needs_uploader: bool,
    fresh: Seq<TorrentV>,
    persisted: Seq<TorrentV>,
    details: Seq<Option<TorrentV>>,
    avatars: Seq<Option<Seq<char>>>,
    now: u64,
) -> Seq<UpdateV> {
    spec_reconcile_from(c_en, needs_uploader, fresh, persisted, details, avatars, now, 0)
}

/// Computes the delta between a fresh feed snapshot and the persisted
/// baseline: one ordered list of update events, comments annotated with
/// their lifecycle state, in the order torrents appear in the feed.
///
/// `details[i]` is the outcome of the detail fetch for `fresh[i]` if the
/// caller performed one, `avatars[i]` the outcome of its avatar lookup;
/// a torrent whose needed fetch failed is skipped this cycle.
pub fn reconcile(
    module: &ModuleConfig,
    fresh: &Vec<NyaaTorrent>,
    persisted: &Vec<NyaaTorrent>,
    details: &Vec<Option<NyaaTorrent>>,
    avatars: &Vec<Option<String>>,
    now: u64,
) -> (r: Vec<NyaaUpdate>)
    requires
        wf_module(*module),
        details@.len() == fresh@.len(),
        avatars@.len() == fresh@.len(),
        forall|i: int|
            0 <= i < persisted@.len() ==> wf_thread(
                thread_view((#[trigger] persisted@[i]).comments@),
            ),
    ensures
        updates_view(r@) == spec_reconcile(
            comments_enabled(*module),
            module.module_type is Discord,
            torrents_view(fresh@),
            torrents_view(persisted@),
            details_view(details@),
            avatars_view(avatars@),
            now,
        ),
{
    let ghost c_en = comments_enabled(*module);
    let ghost nu = module.module_type is Discord;
    let ghost fv = torrents_view(fresh@);
    let ghost pv = torrents_view(persisted@);
    let ghost dv = details_view(details@);
    let ghost av = avatars_view(avatars@);
    let mut r: Vec<NyaaUpdate> = Vec::new();
    let mut i: usize = 0;
    while i < fresh.len()
        invariant
            i <= fresh.len(),
            fv == torrents_view(fresh@),
            pv == torrents_view(persisted@),
            dv == details_view(details@),
            av == avatars_view(avatars@),
            dv.len() == fv.len(),
            av.len() == fv.len(),
            details@.len() == fresh@.len(),
            avatars@.len() == fresh@.len(),
            wf_module(*module),
            c_en == comments_enabled(*module),
            nu == (module.module_type is Discord),
            forall|j: int|
                0 <= j < persisted@.len() ==> wf_thread(
                    thread_view((#[trigger] persisted@[j]).comments@),
                ),
            updates_view(r@) + spec_reconcile_from(c_en, nu, fv, pv, dv, av, now, i as int)
                == spec_reconcile(c_en, nu, fv, pv, dv, av, now),
        decreases fresh.len() - i,
    {
        let ghost r_old = updates_view(r@);
        let t = &fresh[i];
        let detail: Option<&NyaaTorrent> = match &details[i] {
            Some(d) => Some(d),
            None => None,
        };
        let event: Option<NyaaUpdate> = match find_torrent_by_id(persisted, t.id) {
            Some(db) => {
                proof {
                    lemma_id_index(pv, t.id);
                }
                known_torrent_event(module, t, db, detail, now)
            },
            None => {
                let avatar = duplicate_opt_string(&avatars[i]);
                new_torrent_event(module, t, detail, avatar)
            },
        };
        proof {
            assert(opt_torrent_view(detail) == dv[i as int]);
        }
        match event {
            Some(u) => {
                let ghost uv = u@;
                r.push(u);
                proof {
                    assert(updates_view(r@) =~= r_old + seq![uv]);
                }
            },
            None => {},
        }
        proof {
            let head: Seq<UpdateV> = match spec_torrent_event(
                c_en,
                nu,
                fv[i as int],
                pv,
                dv[i as int],
                av[i as int],
                now,
            ) {
                Some(u) => seq![u],
                None => Seq::empty(),
            };
            assert(updates_view(r@) =~= r_old + head);
            assert(spec_reconcile_from(c_en, nu, fv, pv, dv, av, now, i as int) == head
                + spec_reconcile_from(c_en, nu, fv, pv, dv, av, now, i as int + 1));
            assert((r_old + head) + spec_reconcile_from(c_en, nu, fv, pv, dv, av, now, i as int + 1)
                =~= r_old + (head + spec_reconcile_from(c_en, nu, fv, pv, dv, av, now, i as int + 1)));
        }
        i += 1;
    }
    proof {
        assert(spec_reconcile_from(c_en, nu, fv, pv, dv, av, now, fv.len() as int) =~= Seq::<
            UpdateV,
        >::empty());
        assert(updates_view(r@) =~= updates_view(r@) + Seq::<UpdateV>::empty());
    }
    r
}
} // verus!
