//! State-store bookkeeping done in front of the on-disk layer: freezing
//! comments that outgrew the freshness window before a row is written,
//! and the upsert of an accepted update into the persisted baseline.

use vstd::prelude::*;

use crate::model::{
    thread_view, CommentV, NyaaComment, NyaaCommentUpdateType, NyaaTorrent, NyaaUpdate, TorrentV,
    UpdateV,
};
use crate::reconcile::{torrents_view, FRESHNESS_WINDOW_SECS};

verus! {

/// Grace period past the freshness window before a stored comment is
/// frozen; keeps a comment re-checkable for the whole window even when
/// the store write lags the poll by a moment.
pub const FREEZE_GRACE_SECS: u64 = 60;

/// A comment as it is written to the store: one that outgrew the
/// freshness window (plus grace) is frozen to `UNDECIDED` and never
/// re-examined; younger ones are stored as they are.
pub open spec fn spec_frozen_comment(c: CommentV, now: u64) -> CommentV {
    if c.date_timestamp + FRESHNESS_WINDOW_SECS + FREEZE_GRACE_SECS <= now {
        CommentV { update_type: NyaaCommentUpdateType::UNDECIDED, ..c }
    } else {
        c
    }
}

/// A whole thread as it is written to the store.
pub open spec fn spec_frozen_thread(s: Seq<CommentV>, now: u64) -> Seq<CommentV> {
    s.map_values(|c: CommentV| spec_frozen_comment(c, now))
}

/// The update as it is written to the store; see [`spec_frozen_comment`].
pub open spec fn spec_prepare_for_store(u: UpdateV, now: u64) -> UpdateV {
    UpdateV {
        new_upload: u.new_upload,
        torrent: TorrentV { comments: spec_frozen_thread(u.torrent.comments, now), ..u.torrent },
    }
}

/// Freezes the comments of an accepted update that outgrew the freshness
/// window, so they are never re-examined after this store write.
pub fn prepare_for_store(u: &NyaaUpdate, now: u64) -> (r: NyaaUpdate)
    ensures
        r@ == spec_prepare_for_store(u@, now),
{
    let mut torrent = u.torrent.duplicate();
    let mut comments: Vec<NyaaComment> = Vec::new();
    let mut i: usize = 0;
    while i < u.torrent.comments.len()
        invariant
            i <= u.torrent.comments.len(),
            comments@.len() == i,
            forall|j: int|
                0 <= j < i ==> #[trigger] comments@[j]@ == spec_frozen_comment(
                    u.torrent.comments@[j]@,
                    now,
                ),
        decreases u.torrent.comments.len() - i,
    {
        let c = &u.torrent.comments[i];
        let old_enough = c.date_timestamp <= u64::MAX - FRESHNESS_WINDOW_SECS - FREEZE_GRACE_SECS
            && c.date_timestamp + FRESHNESS_WINDOW_SECS + FREEZE_GRACE_SECS <= now;
        if old_enough {
            comments.push(c.with_type(NyaaCommentUpdateType::UNDECIDED));
        } else {
            comments.push(c.duplicate());
        }
        i += 1;
    }
    torrent.comments = comments;
    let r = NyaaUpdate { new_upload: u.new_upload, torrent };
    proof {
        assert(thread_view(r.torrent.comments@) =~= spec_frozen_thread(
            thread_view(u.torrent.comments@),
            now,
        ));
        assert(r@ =~= spec_prepare_for_store(u@, now));
    }
    r
}

/// The persisted baseline after an update's torrent replaces the first
/// row with its id, or is appended when its id is absent.
pub open spec fn spec_apply_update(store: Seq<TorrentV>, t: TorrentV) -> Seq<TorrentV> {
    if crate::reconcile::has_id(store, t.id) {
        store.update(crate::reconcile::id_index(store, t.id), t)
    } else {
        store.push(t)
    }
}

/// Upserts an accepted (and store-prepared) update's torrent into the
/// persisted baseline, keyed by torrent id.
pub fn apply_update(store: &mut Vec<NyaaTorrent>, u: &NyaaUpdate)
    ensures
        torrents_view(final(store)@) == spec_apply_update(torrents_view(old(store)@), u.torrent@),
{
    let ghost sv = torrents_view(old(store)@);
    let mut i: usize = 0;
    let mut found: Option<usize> = None;
    while i < store.len()
        invariant
            i <= store.len(),
            sv == torrents_view(store@),
            store@ == old(store)@,
            match found {
                Some(k) => k < i && sv[k as int].id == u.torrent.id && forall|j: int|
                    0 <= j < k ==> sv[j].id != u.torrent.id,
                None => forall|j: int| 0 <= j < i ==> sv[j].id != u.torrent.id,
            },
        decreases store.len() - i,
    {
        if found.is_none() && store[i].id == u.torrent.id {
            proof {
                assert(sv[i as int] == store@[i as int]@);
            }
            found = Some(i);
        }
        i += 1;
    }
    match found {
        Some(k) => {
            proof {
                assert(crate::reconcile::has_id(sv, u.torrent@.id));
                crate::reconcile::lemma_id_index(sv, u.torrent@.id);
                let ix = crate::reconcile::id_index(sv, u.torrent@.id);
                if ix < k {
                    assert(sv[ix].id != u.torrent.id);
                }
                if ix > k {
                    assert(sv[k as int].id != u.torrent.id);
                }
                assert(ix == k);
            }
            store.set(k, u.torrent.duplicate());
            proof {
                assert(torrents_view(store@) =~= spec_apply_update(sv, u.torrent@));
            }
        },
        None => {
            store.push(u.torrent.duplicate());
            proof {
                assert(!crate::reconcile::has_id(sv, u.torrent@.id));
                assert(torrents_view(store@) =~= spec_apply_update(sv, u.torrent@));
            }
        },
    }
}

} // verus!
