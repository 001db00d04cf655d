//! The library's cross-function guarantees, each stated over the spec
//! functions that the executable functions' contracts use and proved
//! once and for all.

use vstd::prelude::*;

use crate::dispatch::{
    spec_accepted_comments, spec_accepted_from, spec_advance_comment, spec_delivered_edit,
    spec_delivered_new, spec_dispatch_update,
};
use crate::model::{
    key_eq, thread_has_key, unique_keys, CommentV, NyaaCommentUpdateType, TorrentV, UpdateV,
};
use crate::reconcile::{
    classify_fresh, eff_torrent, eligible_for_recheck, is_changed, is_edit_of, key_index,
    marked_thread, spec_deleted_from, spec_deletion_synthesis, spec_diff, spec_diff_event,
    spec_diff_fresh, spec_has_change, spec_known_event, spec_new_event, spec_new_needs_detail,
    FRESHNESS_WINDOW_SECS,
};
use crate::store::{spec_frozen_comment, spec_frozen_thread, spec_prepare_for_store};

verus! {

/// Freshness window: an `UNCHECKED` comment created at `t` is still
/// eligible for re-diffing one minute before the window closes, and no
/// longer eligible one minute after it closed.
pub proof fn lemma_freshness_window(c: CommentV, t: u64)
    requires
        c.update_type is UNCHECKED,
        c.date_timestamp == t,
        t + FRESHNESS_WINDOW_SECS + 60 <= u64::MAX,
    ensures
        eligible_for_recheck(c, (t + FRESHNESS_WINDOW_SECS - 60) as u64),
        !eligible_for_recheck(c, (t + FRESHNESS_WINDOW_SECS + 60) as u64),
{
}

/// New-torrent skip: when a new torrent's event needs a detail fetch and
/// that fetch failed, no update is emitted for it this cycle, whatever
/// the other lookups returned; it stays absent from the store and is
/// retried next poll.
pub proof fn lemma_new_torrent_skip(
    c_en: bool,
    needs_uploader: bool,
    fresh: TorrentV,
    avatar: Option<Seq<char>>,
)
    requires
        spec_new_needs_detail(c_en, needs_uploader, fresh),
    ensures
        spec_new_event(c_en, needs_uploader, fresh, None, avatar) is None,
{
}

/// Deletion synthesis: when the source reports a known torrent's thread
/// emptied, one update is emitted that carries every persisted comment
/// flagged `DELETED` and a zeroed counter, without consulting any
/// fetched detail.
pub proof fn lemma_deletion_synthesis(
    c_en: bool,
    fresh: TorrentV,
    db: TorrentV,
    detail: Option<TorrentV>,
    now: u64,
)
    requires
        c_en,
        fresh.comments_amount == 0,
        db.comments_amount != 0,
    ensures
        spec_known_event(c_en, fresh, db, detail, now) == Some(spec_deletion_synthesis(db)),
        spec_deletion_synthesis(db).torrent.comments_amount == 0,
        spec_deletion_synthesis(db).torrent.comments.len() == db.comments.len(),
        forall|i: int|
            0 <= i < db.comments.len() ==> spec_deletion_synthesis(db).torrent.comments[i]
                == (CommentV { update_type: NyaaCommentUpdateType::DELETED, ..db.comments[i] }),
{
}

/// The accepted thread built from index `j` of the truncated thread,
/// followed by the rest, is the accepted thread from index `j` of the
/// whole.
proof fn lemma_accepted_take(s: Seq<CommentV>, o: Seq<bool>, k: int, j: int)
    requires
        o.len() == s.len(),
        0 <= j <= k <= s.len(),
    ensures
        spec_accepted_from(s.take(k), o.take(k), j) + spec_accepted_from(s, o, k)
            == spec_accepted_from(s, o, j),
    decreases k - j,
{
    if j == k {
        assert(spec_accepted_from(s.take(k), o.take(k), j) =~= Seq::<CommentV>::empty());
        assert(Seq::<CommentV>::empty() + spec_accepted_from(s, o, k) =~= spec_accepted_from(
            s,
            o,
            k,
        ));
    } else {
        lemma_accepted_take(s, o, k, j + 1);
        assert(s.take(k)[j] == s[j]);
        assert(o.take(k)[j] == o[j]);
        assert((spec_advance_comment(s[j], o[j]) + spec_accepted_from(s.take(k), o.take(k), j + 1))
            + spec_accepted_from(s, o, k) =~= spec_advance_comment(s[j], o[j]) + (
        spec_accepted_from(s.take(k), o.take(k), j + 1) + spec_accepted_from(s, o, k)));
    }
}

/// The accepted thread from index `k` on is the accepted thread of the
/// remainder.
proof fn lemma_accepted_skip(s: Seq<CommentV>, o: Seq<bool>, k: int, j: int)
    requires
        o.len() == s.len(),
        0 <= k <= s.len(),
        0 <= j <= s.len() - k,
    ensures
        spec_accepted_from(s.skip(k), o.skip(k), j) == spec_accepted_from(s, o, k + j),
    decreases s.len() - k - j,
{
    if j >= s.len() - k {
    } else {
        lemma_accepted_skip(s, o, k, j + 1);
        assert(s.skip(k)[j] == s[k + j]);
        assert(o.skip(k)[j] == o[k + j]);
    }
}

/// No lost-on-failure: when the send of one changed comment fails, the
/// accepted thread is exactly what the other comments contribute, with
/// the failed one's contribution in between, and that contribution never
/// carries a delivered (`UNCHECKED`) state: a failed `NEW` record is
/// dropped, a failed `EDITED` record reverts to the persisted copy, a
/// failed `DELETED` record is kept frozen. The store therefore never
/// advances the failed comment's state.
pub proof fn lemma_no_lost_on_failure(s: Seq<CommentV>, o: Seq<bool>, i: int)
    requires
        o.len() == s.len(),
        0 <= i < s.len(),
        !o[i],
        is_changed(s[i].update_type),
    ensures
        spec_accepted_comments(s, o) == spec_accepted_comments(s.take(i), o.take(i))
            + spec_advance_comment(s[i], false) + spec_accepted_comments(
            s.skip(i + 1),
            o.skip(i + 1),
        ),
        forall|k: int|
            0 <= k < spec_advance_comment(s[i], false).len() ==> !((#[trigger] spec_advance_comment(
                s[i],
                false,
            )[k]).update_type is UNCHECKED),
        s[i].update_type is NEW ==> spec_advance_comment(s[i], false) == Seq::<CommentV>::empty(),
{
    lemma_accepted_take(s, o, i, 0);
    lemma_accepted_skip(s, o, i + 1, 0);
    assert(spec_accepted_from(s, o, i) == spec_advance_comment(s[i], o[i]) + spec_accepted_from(
        s,
        o,
        i + 1,
    ));
    assert(spec_accepted_comments(s, o) =~= (spec_accepted_comments(s.take(i), o.take(i))
        + spec_advance_comment(s[i], false)) + spec_accepted_comments(
        s.skip(i + 1),
        o.skip(i + 1),
    ));
    assert(spec_accepted_comments(s, o) =~= spec_accepted_comments(s.take(i), o.take(i))
        + spec_advance_comment(s[i], false) + spec_accepted_comments(
        s.skip(i + 1),
        o.skip(i + 1),
    ));
}



/// A comment's stored record after its delivery succeeded: `NEW` and
/// `EDITED` advance to `UNCHECKED`, passthrough records stay.
pub open spec fn advance_ok(c: CommentV) -> CommentV {
    match c.update_type {
        NyaaCommentUpdateType::NEW => spec_delivered_new(c),
        NyaaCommentUpdateType::EDITED => spec_delivered_edit(c),
        _ => c,
    }
}

/// Every comment of the thread sits in a stored, non-notifiable state.
pub open spec fn settled_thread(s: Seq<CommentV>) -> bool {
    forall|i: int|
        0 <= i < s.len() ==> ((#[trigger] s[i]).update_type is UNCHECKED || s[i].update_type
            is UNDECIDED)
}

/// With every send successful, a thread of delivered `DELETED` records
/// leaves nothing behind.
proof fn lemma_accepted_all_deleted(s: Seq<CommentV>, o: Seq<bool>, i: int)
    requires
        o.len() == s.len(),
        0 <= i <= s.len(),
        forall|j: int| 0 <= j < s.len() ==> (#[trigger] s[j]).update_type is DELETED,
        forall|j: int| 0 <= j < o.len() ==> #[trigger] o[j],
    ensures
        spec_accepted_from(s, o, i) == Seq::<CommentV>::empty(),
    decreases s.len() - i,
{
    if i < s.len() {
        lemma_accepted_all_deleted(s, o, i + 1);
        assert(spec_advance_comment(s[i], o[i]) + Seq::<CommentV>::empty() =~= Seq::<
            CommentV,
        >::empty());
    }
}

/// With every send successful and no `DELETED` record present, the
/// accepted thread is the pointwise advanced thread.
proof fn lemma_accepted_all_ok(s: Seq<CommentV>, o: Seq<bool>, i: int)
    requires
        o.len() == s.len(),
        0 <= i <= s.len(),
        forall|j: int| 0 <= j < s.len() ==> !((#[trigger] s[j]).update_type is DELETED),
        forall|j: int| 0 <= j < o.len() ==> #[trigger] o[j],
    ensures
        spec_accepted_from(s, o, i).len() == s.len() - i,
        forall|j: int|
            0 <= j < s.len() - i ==> #[trigger] spec_accepted_from(s, o, i)[j] == advance_ok(
                s[i + j],
            ),
    decreases s.len() - i,
{
    if i < s.len() {
        lemma_accepted_all_ok(s, o, i + 1);
        assert(spec_advance_comment(s[i], o[i]) =~= seq![advance_ok(s[i])]);
        assert forall|j: int| 0 <= j < s.len() - i implies #[trigger] spec_accepted_from(
            s,
            o,
            i,
        )[j] == advance_ok(s[i + j]) by {
            if j == 0 {
            } else {
                assert(spec_accepted_from(s, o, i)[j] == spec_accepted_from(s, o, i + 1)[j - 1]);
            }
        }
    }
}

/// The accepted thread of a concatenation splits at the seam.
proof fn lemma_accepted_append(s1: Seq<CommentV>, s2: Seq<CommentV>, o1: Seq<bool>, o2: Seq<bool>)
    requires
        o1.len() == s1.len(),
        o2.len() == s2.len(),
    ensures
        spec_accepted_comments(s1 + s2, o1 + o2) == spec_accepted_comments(s1, o1)
            + spec_accepted_comments(s2, o2),
{
    let s = s1 + s2;
    let o = o1 + o2;
    lemma_accepted_take(s, o, s1.len() as int, 0);
    lemma_accepted_skip(s, o, s1.len() as int, 0);
    assert(s.take(s1.len() as int) =~= s1);
    assert(o.take(s1.len() as int) =~= o1);
    assert(s.skip(s1.len() as int) =~= s2);
    assert(o.skip(s1.len() as int) =~= o2);
}


/// Keys shared through a pointwise-keyed copy stay unique.
proof fn lemma_unique_keys_transfer(eff: Seq<CommentV>, db2: Seq<CommentV>)
    requires
        db2.len() == eff.len(),
        forall|i: int| 0 <= i < eff.len() ==> key_eq(#[trigger] db2[i], eff[i]),
        unique_keys(eff),
    ensures
        unique_keys(db2),
{
    assert forall|i: int, j: int|
        0 <= i < db2.len() && 0 <= j < db2.len() && i != j implies !key_eq(db2[i], db2[j]) by {
        if key_eq(db2[i], db2[j]) {
            assert(key_eq(eff[i], eff[j]));
        }
    }
}

/// The deleted half of a diff against a thread whose every key is
/// present in the fresh thread is empty.
proof fn lemma_deleted_empty(eff: Seq<CommentV>, db2: Seq<CommentV>, i: int)
    requires
        0 <= i <= db2.len(),
        forall|j: int| 0 <= j < db2.len() ==> thread_has_key(eff, #[trigger] db2[j]),
    ensures
        spec_deleted_from(eff, db2, i) == Seq::<CommentV>::empty(),
    decreases db2.len() - i,
{
    if i < db2.len() {
        lemma_deleted_empty(eff, db2, i + 1);
        assert(Seq::<CommentV>::empty() + Seq::<CommentV>::empty() =~= Seq::<CommentV>::empty());
    }
}

/// Second diff against the stored copy of the same snapshot: when the
/// stored thread is keyed pointwise like the fresh thread, none of its
/// records count as silently edited, and all of them sit in stored
/// states, the diff classifies everything as passthrough and finds no
/// change.
proof fn lemma_second_diff_no_change(eff: Seq<CommentV>, db2: Seq<CommentV>)
    requires
        unique_keys(eff),
        db2.len() == eff.len(),
        forall|i: int| 0 <= i < eff.len() ==> key_eq(#[trigger] db2[i], eff[i]),
        forall|i: int| 0 <= i < eff.len() ==> !is_edit_of(eff[i], #[trigger] db2[i]),
        settled_thread(db2),
    ensures
        !spec_has_change(spec_diff(eff, db2)),
{
    lemma_unique_keys_transfer(eff, db2);
    assert forall|i: int| 0 <= i < eff.len() implies classify_fresh(#[trigger] eff[i], db2)
        == db2[i] by {
        assert(key_eq(db2[i], eff[i]));
        assert(thread_has_key(db2, eff[i]));
        assert forall|j: int| 0 <= j < i implies !key_eq(db2[j], eff[i]) by {
            if key_eq(db2[j], eff[i]) {
                assert(key_eq(db2[j], eff[j]));
                assert(key_eq(eff[j], eff[i]));
            }
        }
        crate::reconcile::lemma_key_index_of(db2, eff[i], i);
    }
    assert forall|j: int| 0 <= j < db2.len() implies thread_has_key(eff, #[trigger] db2[j]) by {
        assert(key_eq(eff[j], db2[j]));
    }
    lemma_deleted_empty(eff, db2, 0);
    let d = spec_diff(eff, db2);
    assert(d =~= spec_diff_fresh(eff, db2));
    assert forall|i: int| 0 <= i < d.len() implies !is_changed(d[i].update_type) by {
        assert(d[i] == classify_fresh(eff[i], db2));
        assert(d[i] == db2[i]);
    }
}

/// The stored thread one fully delivered diff produces: every diff
/// record advanced and then frozen where the window closed.
pub open spec fn cycle_store_thread(diff: Seq<CommentV>, store_now: u64) -> Seq<CommentV> {
    spec_frozen_thread(
        spec_accepted_comments(diff, Seq::new(diff.len(), |i: int| true)),
        store_now,
    )
}

/// Idempotence, diff path: one emitted diff update, delivered in full
/// and written to the store, leaves a baseline against which the same
/// snapshot diffs to no change at all.
proof fn lemma_cycle_diff_settles(
    eff: Seq<CommentV>,
    db: Seq<CommentV>,
    store_now: u64,
)
    requires
        unique_keys(eff),
        settled_thread(db),
    ensures
        !spec_has_change(spec_diff(eff, cycle_store_thread(spec_diff(eff, db), store_now))),
        cycle_store_thread(spec_diff(eff, db), store_now).len() == eff.len(),
{
    let diff = spec_diff(eff, db);
    let fresh_part = spec_diff_fresh(eff, db);
    let del_part = crate::reconcile::spec_deleted(eff, db);
    let o = Seq::new(diff.len(), |i: int| true);
    let o1 = Seq::new(fresh_part.len(), |i: int| true);
    let o2 = Seq::new(del_part.len(), |i: int| true);
    assert(o =~= o1 + o2);
    lemma_accepted_append(fresh_part, del_part, o1, o2);
    assert(spec_accepted_comments(diff, o) == spec_accepted_comments(fresh_part, o1)
        + spec_accepted_comments(del_part, o2));
    assert forall|j: int| 0 <= j < del_part.len() implies (#[trigger] del_part[j]).update_type
        is DELETED by {
        lemma_deleted_all_deleted(eff, db, 0, j);
    }
    lemma_accepted_all_deleted(del_part, o2, 0);
    assert forall|j: int| 0 <= j < fresh_part.len() implies !((#[trigger] fresh_part[j]).update_type
        is DELETED) by {
        assert(fresh_part[j] == classify_fresh(eff[j], db));
        if thread_has_key(db, eff[j]) {
            crate::reconcile::lemma_key_index(db, eff[j]);
        }
    }
    lemma_accepted_all_ok(fresh_part, o1, 0);
    let acc = spec_accepted_comments(diff, o);
    assert(acc =~= spec_accepted_comments(fresh_part, o1));
    let db2 = cycle_store_thread(diff, store_now);
    assert(db2.len() == eff.len());
    assert forall|i: int| 0 <= i < eff.len() implies key_eq(#[trigger] db2[i], eff[i])
        && !is_edit_of(eff[i], db2[i]) && (db2[i].update_type is UNCHECKED || db2[i].update_type
        is UNDECIDED) by {
        assert(acc[i] == advance_ok(fresh_part[i]));
        assert(fresh_part[i] == classify_fresh(eff[i], db));
        assert(db2[i] == spec_frozen_comment(acc[i], store_now));
        if thread_has_key(db, eff[i]) {
            crate::reconcile::lemma_key_index(db, eff[i]);
            let d = db[key_index(db, eff[i])];
            assert(key_eq(d, eff[i]));
        }
    }
    lemma_second_diff_no_change(eff, db2);
}

/// Every record of the deleted half of a diff is flagged `DELETED`.
proof fn lemma_deleted_all_deleted(eff: Seq<CommentV>, db: Seq<CommentV>, i: int, j: int)
    requires
        0 <= i <= db.len(),
        0 <= j < spec_deleted_from(eff, db, i).len(),
    ensures
        spec_deleted_from(eff, db, i)[j].update_type is DELETED,
    decreases db.len() - i,
{
    if i < db.len() {
        let head: Seq<CommentV> = if !thread_has_key(eff, db[i]) {
            seq![CommentV { update_type: NyaaCommentUpdateType::DELETED, ..db[i] }]
        } else {
            Seq::empty()
        };
        if j < head.len() {
        } else {
            lemma_deleted_all_deleted(eff, db, i + 1, j - head.len());
        }
    }
}


/// The baseline row one fully delivered update leaves behind: the
/// update's torrent with its accepted thread frozen for storage.
pub open spec fn spec_cycle_store(u: UpdateV, up_en: bool, c_en: bool, store_now: u64) -> TorrentV {
    let all_ok = Seq::new(u.torrent.comments.len(), |i: int| true);
    spec_prepare_for_store(
        spec_dispatch_update(u, up_en, c_en, true, all_ok)->Some_0,
        store_now,
    ).torrent
}

/// Idempotence: a known torrent's update, delivered in full and written
/// to the store, silences the torrent — reconciling the unchanged
/// snapshot against the new baseline emits nothing, at any later clock
/// value.
pub proof fn lemma_reconcile_idempotent(
    fresh: TorrentV,
    db: TorrentV,
    detail: Option<TorrentV>,
    now: u64,
    store_now: u64,
    now2: u64,
    up_en: bool,
)
    requires
        settled_thread(db.comments),
        match eff_torrent(fresh, detail) {
            Some(t) => unique_keys(t.comments) && t.comments_amount == fresh.comments_amount,
            None => true,
        },
        spec_known_event(true, fresh, db, detail, now) is Some,
    ensures
        spec_known_event(
            true,
            fresh,
            spec_cycle_store(
                spec_known_event(true, fresh, db, detail, now)->Some_0,
                up_en,
                true,
                store_now,
            ),
            detail,
            now2,
        ) is None,
{
    let u = spec_known_event(true, fresh, db, detail, now)->Some_0;
    let all_ok = Seq::new(u.torrent.comments.len(), |i: int| true);
    let db2 = spec_cycle_store(u, up_en, true, store_now);
    assert(!u.new_upload);
    assert(db2.comments == spec_frozen_thread(
        spec_accepted_comments(u.torrent.comments, all_ok),
        store_now,
    ));
    if fresh.comments_amount != db.comments_amount && fresh.comments_amount == 0 {
        let marked = marked_thread(db.comments, NyaaCommentUpdateType::DELETED);
        assert(u == spec_deletion_synthesis(db));
        assert(u.torrent.comments == marked);
        assert forall|j: int| 0 <= j < marked.len() implies (#[trigger] marked[j]).update_type
            is DELETED by {
            assert(marked[j] == (CommentV {
                update_type: NyaaCommentUpdateType::DELETED,
                ..db.comments[j]
            }));
        }
        lemma_accepted_all_deleted(marked, all_ok, 0);
        assert(spec_accepted_comments(marked, all_ok) =~= Seq::<CommentV>::empty());
        assert(db2.comments =~= Seq::<CommentV>::empty());
        assert(db2.comments_amount == 0);
        assert(fresh.comments_amount == db2.comments_amount);
    } else {
        let ev = spec_diff_event(fresh, db, detail);
        assert(Some(u) == ev);
        let t = eff_torrent(fresh, detail)->Some_0;
        assert(u.torrent == (TorrentV { comments: spec_diff(t.comments, db.comments), ..t }));
        let diff = spec_diff(t.comments, db.comments);
        lemma_cycle_diff_settles(t.comments, db.comments, store_now);
        assert(db2.comments == cycle_store_thread(diff, store_now));
        assert(db2.comments_amount == t.comments_amount);
        assert(db2.comments_amount == fresh.comments_amount);
        assert(!spec_has_change(spec_diff(t.comments, db2.comments)));
        assert(spec_diff_event(fresh, db2, detail) is None);
    }
}


/// The thread a fully delivered new-torrent event leaves in the store
/// diffs to no change against the same snapshot thread.
proof fn lemma_cycle_new_settles(used: Seq<CommentV>, store_now: u64)
    requires
        unique_keys(used),
    ensures
        !spec_has_change(
            spec_diff(
                used,
                spec_frozen_thread(
                    spec_accepted_comments(
                        marked_thread(used, NyaaCommentUpdateType::NEW),
                        Seq::new(used.len(), |i: int| true),
                    ),
                    store_now,
                ),
            ),
        ),
        spec_frozen_thread(
            spec_accepted_comments(
                marked_thread(used, NyaaCommentUpdateType::NEW),
                Seq::new(used.len(), |i: int| true),
            ),
            store_now,
        ).len() == used.len(),
{
    let marked = marked_thread(used, NyaaCommentUpdateType::NEW);
    let o = Seq::new(used.len(), |i: int| true);
    assert(marked.len() == used.len());
    assert forall|j: int| 0 <= j < marked.len() implies !((#[trigger] marked[j]).update_type
        is DELETED) by {
        assert(marked[j] == (CommentV { update_type: NyaaCommentUpdateType::NEW, ..used[j] }));
    }
    lemma_accepted_all_ok(marked, o, 0);
    let acc = spec_accepted_comments(marked, o);
    let db2 = spec_frozen_thread(acc, store_now);
    assert(db2.len() == used.len());
    assert forall|i: int| 0 <= i < used.len() implies key_eq(#[trigger] db2[i], used[i])
        && !is_edit_of(used[i], db2[i]) && (db2[i].update_type is UNCHECKED || db2[i].update_type
        is UNDECIDED) by {
        assert(acc[i] == advance_ok(marked[i]));
        assert(marked[i] == (CommentV { update_type: NyaaCommentUpdateType::NEW, ..used[i] }));
        assert(db2[i] == spec_frozen_comment(acc[i], store_now));
    }
    lemma_second_diff_no_change(used, db2);
}

/// Idempotence, new-torrent path: a new torrent's update, delivered in
/// full and written to the store, silences the torrent — the unchanged
/// snapshot reconciled against the new baseline row emits nothing.
pub proof fn lemma_new_torrent_idempotent(
    needs_uploader: bool,
    fresh: TorrentV,
    detail: Option<TorrentV>,
    avatar: Option<Seq<char>>,
    store_now: u64,
    now2: u64,
    up_en: bool,
)
    requires
        fresh.comments.len() == 0,
        match detail {
            Some(d) => unique_keys(d.comments) && d.comments_amount == fresh.comments_amount,
            None => true,
        },
        spec_new_event(true, needs_uploader, fresh, detail, avatar) is Some,
    ensures
        spec_known_event(
            true,
            fresh,
            spec_cycle_store(
                spec_new_event(true, needs_uploader, fresh, detail, avatar)->Some_0,
                up_en,
                true,
                store_now,
            ),
            detail,
            now2,
        ) is None,
{
    let u = spec_new_event(true, needs_uploader, fresh, detail, avatar)->Some_0;
    let all_ok = Seq::new(u.torrent.comments.len(), |i: int| true);
    let db2 = spec_cycle_store(u, up_en, true, store_now);
    let needs = spec_new_needs_detail(true, needs_uploader, fresh);
    if needs {
        let d = detail->Some_0;
        assert(u.torrent.comments == marked_thread(d.comments, NyaaCommentUpdateType::NEW));
        assert(u.torrent.comments_amount == d.comments_amount);
        lemma_cycle_new_settles(d.comments, store_now);
        assert(db2.comments_amount == fresh.comments_amount);
        assert(db2.comments == spec_frozen_thread(
            spec_accepted_comments(
                marked_thread(d.comments, NyaaCommentUpdateType::NEW),
                Seq::new(d.comments.len(), |i: int| true),
            ),
            store_now,
        )) by {
            assert(all_ok =~= Seq::new(d.comments.len(), |i: int| true));
        }
        if db2.comments_amount != 0 && (exists|i: int|
            0 <= i < db2.comments.len() && eligible_for_recheck(#[trigger] db2.comments[i], now2)) {
            assert(eff_torrent(fresh, detail) == Some(d));
            assert(spec_diff_event(fresh, db2, detail) is None);
        }
    } else {
        assert(fresh.comments_amount == 0);
        assert(u.torrent.comments == marked_thread(fresh.comments, NyaaCommentUpdateType::NEW));
        assert(u.torrent.comments.len() == 0);
        assert(u.torrent.comments =~= Seq::<CommentV>::empty());
        assert(spec_accepted_comments(u.torrent.comments, all_ok) =~= Seq::<CommentV>::empty());
        assert(db2.comments =~= Seq::<CommentV>::empty());
        assert(db2.comments_amount == 0);
    }
}
} // verus!
