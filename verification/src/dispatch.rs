//! The dispatcher's bookkeeping: which portion of an update a sink
//! actually accepted, at comment granularity.
//!
//! The sends themselves happen outside the library; their outcomes are
//! handed in as plain booleans, and every function here is verified for
//! every possible outcome. A change is never part of the accepted update
//! unless its send succeeded, and a failed change keeps (or regains) the
//! form under which the next cycle re-detects it.

use vstd::prelude::*;

use crate::config::{comments_enabled, uploads_enabled, wf_module, ModuleConfig};
use crate::model::{
    thread_view, wf_comment, wf_thread, CommentV, NyaaComment, NyaaCommentUpdateType, NyaaUpdate,
    TorrentV, UpdateV,
};
use crate::reconcile::updates_view;

verus! {

/// A delivered `NEW` comment: it advances to `UNCHECKED`.
pub open spec fn spec_delivered_new(c: CommentV) -> CommentV {
    CommentV { update_type: NyaaCommentUpdateType::UNCHECKED, ..c }
}

/// A delivered `EDITED` comment: it advances to `UNCHECKED` and sheds the
/// pre-edit bookkeeping fields.
pub open spec fn spec_delivered_edit(c: CommentV) -> CommentV {
    CommentV {
        old_message: None,
        old_edited_timestamp: None,
        update_type: NyaaCommentUpdateType::UNCHECKED,
        ..c
    }
}

/// A failed `EDITED` comment: the persisted pre-edit copy is restored, so
/// the next cycle classifies the same edit again.
pub open spec fn spec_reverted_edit(c: CommentV) -> CommentV {
    CommentV {
        message: c.old_message->Some_0,
        old_message: None,
        edited_timestamp: c.old_edited_timestamp,
        old_edited_timestamp: None,
        update_type: NyaaCommentUpdateType::UNDECIDED,
        ..c
    }
}

/// What one comment of an update contributes to the accepted copy, given
/// whether its send succeeded.
///
/// A delivered `NEW` or `EDITED` comment advances to `UNCHECKED`; a
/// failed one is dropped or reverted so its change is re-detected next
/// cycle. A delivered `DELETED` comment is terminal and leaves the
/// stored thread; a failed one keeps its record (frozen) so the deletion
/// is re-detected. Passthrough records are kept verbatim.
pub open spec fn spec_advance_comment(c: CommentV, ok: bool) -> Seq<CommentV> {
    match c.update_type {
        NyaaCommentUpdateType::NEW => if ok {
            seq![spec_delivered_new(c)]
        } else {
            Seq::empty()
        },
        NyaaCommentUpdateType::EDITED => if ok {
            seq![spec_delivered_edit(c)]
        } else {
            seq![spec_reverted_edit(c)]
        },
        NyaaCommentUpdateType::DELETED => if ok {
            Seq::empty()
        } else {
            seq![CommentV { update_type: NyaaCommentUpdateType::UNDECIDED, ..c }]
        },
        NyaaCommentUpdateType::UNDECIDED => seq![c],
        NyaaCommentUpdateType::UNCHECKED => seq![c],
    }
}

/// The accepted thread built from the comments from index `i` on.
pub open spec fn spec_accepted_from(s: Seq<CommentV>, outs: Seq<bool>, i: int) -> Seq<CommentV>
    decreases s.len() - i,
{
    if i < 0 || i >= s.len() {
        Seq::empty()
    } else {
        spec_advance_comment(s[i], outs[i]) + spec_accepted_from(s, outs, i + 1)
    }
}

/// The accepted thread: every comment's contribution under its own send
/// outcome, in thread order.
pub open spec fn spec_accepted_comments(s: Seq<CommentV>, outs: Seq<bool>) -> Seq<CommentV> {
    spec_accepted_from(s, outs, 0)
}

/// The thread kept when the destination has comment notifications off:
/// `DELETED` records are dropped, everything else is kept verbatim, from
/// index `i` on.
pub open spec fn spec_undeleted_from(s: Seq<CommentV>, i: int) -> Seq<CommentV>
    decreases s.len() - i,
{
    if i < 0 || i >= s.len() {
        Seq::empty()
    } else {
        let head: Seq<CommentV> = if s[i].update_type is DELETED {
            Seq::empty()
        } else {
            seq![s[i]]
        };
        head + spec_undeleted_from(s, i + 1)
    }
}

/// The thread kept when the destination has comment notifications off.
pub open spec fn spec_undeleted(s: Seq<CommentV>) -> Seq<CommentV> {
    spec_undeleted_from(s, 0)
}

/// Builds the accepted copy of an update's comment thread from the
/// per-comment send outcomes; see [`spec_advance_comment`].
pub fn accepted_comments(comments: &Vec<NyaaComment>, outcomes: &Vec<bool>) -> (r: Vec<
    NyaaComment,
>)
    requires
        outcomes@.len() == comments@.len(),
        wf_thread(thread_view(comments@)),
    ensures
        thread_view(r@) == spec_accepted_comments(thread_view(comments@), outcomes@),
{
    let ghost sv = thread_view(comments@);
    let ghost ov = outcomes@;
    let mut r: Vec<NyaaComment> = Vec::new();
    let mut i: usize = 0;
    while i < comments.len()
        invariant
            i <= comments.len(),
            sv == thread_view(comments@),
            ov == outcomes@,
            ov.len() == sv.len(),
            wf_thread(sv),
            thread_view(r@) + spec_accepted_from(sv, ov, i as int) == spec_accepted_comments(
                sv,
                ov,
            ),
        decreases comments.len() - i,
    {
        let ghost r_old = thread_view(r@);
        let c = &comments[i];
        let ok = outcomes[i];
        proof {
            assert(wf_comment(sv[i as int]));
        }
        match c.update_type {
            NyaaCommentUpdateType::NEW => {
                if ok {
                    r.push(c.with_type(NyaaCommentUpdateType::UNCHECKED));
                }
            },
            NyaaCommentUpdateType::EDITED => {
                if ok {
                    let mut d = c.duplicate();
                    d.old_message = None;
                    d.old_edited_timestamp = None;
                    d.update_type = NyaaCommentUpdateType::UNCHECKED;
                    r.push(d);
                } else {
                    let mut d = c.duplicate();
                    d.message = match &c.old_message {
                        Some(m) => m.clone(),
                        None => String::new(),
                    };
                    d.old_message = None;
                    d.edited_timestamp = c.old_edited_timestamp;
                    d.old_edited_timestamp = None;
                    d.update_type = NyaaCommentUpdateType::UNDECIDED;
                    r.push(d);
                }
            },
            NyaaCommentUpdateType::DELETED => {
                if !ok {
                    r.push(c.with_type(NyaaCommentUpdateType::UNDECIDED));
                }
            },
            NyaaCommentUpdateType::UNDECIDED => {
                r.push(c.duplicate());
            },
            NyaaCommentUpdateType::UNCHECKED => {
                r.push(c.duplicate());
            },
        }
        proof {
            assert(thread_view(r@) =~= r_old + spec_advance_comment(sv[i as int], ov[i as int]));
            assert((r_old + spec_advance_comment(sv[i as int], ov[i as int]))
                + spec_accepted_from(sv, ov, i as int + 1) =~= r_old + (spec_advance_comment(
                sv[i as int],
                ov[i as int],
            ) + spec_accepted_from(sv, ov, i as int + 1)));
        }
        i += 1;
    }
    proof {
        assert(spec_accepted_from(sv, ov, sv.len() as int) =~= Seq::<CommentV>::empty());
        assert(thread_view(r@) =~= thread_view(r@) + Seq::<CommentV>::empty());
    }
    r
}

/// The accepted copy of one update, or `None` when nothing of it was
/// accepted.
///
/// A new-upload update whose upload notification failed is rejected
/// whole, so the torrent is retried next cycle. Otherwise the torrent is
/// kept with its thread replaced by the accepted thread; with comment
/// notifications off nothing was sent, so every non-`DELETED` record is
/// kept verbatim and the state machine still advances past the upload.
pub open spec fn spec_dispatch_update(
    u: UpdateV,
    up_en: bool,
    c_en: bool,
    upload_ok: bool,
    outs: Seq<bool>,
) -> Option<UpdateV> {
    if u.new_upload && up_en && !upload_ok {
        None
    } else {
        let comments = if c_en {
            spec_accepted_comments(u.torrent.comments, outs)
        } else {
            spec_undeleted(u.torrent.comments)
        };
        Some(UpdateV { new_upload: u.new_upload, torrent: TorrentV { comments, ..u.torrent } })
    }
}

/// Builds the accepted copy of one update from the send outcomes the
/// caller observed: `upload_ok` for the upload notification (consulted
/// only for a new-upload update on a destination with uploads enabled),
/// `outcomes[i]` for the send of comment `i`; see
/// [`spec_dispatch_update`].
pub fn dispatch_update(
    module: &ModuleConfig,
    u: &NyaaUpdate,
    upload_ok: bool,
    outcomes: &Vec<bool>,
) -> (r: Option<NyaaUpdate>)
    requires
        wf_module(*module),
        outcomes@.len() == u.torrent.comments@.len(),
        wf_thread(thread_view(u.torrent.comments@)),
    ensures
        crate::reconcile::opt_update_view(r) == spec_dispatch_update(
            u@,
            uploads_enabled(*module),
            comments_enabled(*module),
            upload_ok,
            outcomes@,
        ),
{
    let up_en = match module.uploads {
        Some(b) => b,
        None => false,
    };
    let c_en = match module.comments {
        Some(b) => b,
        None => false,
    };
    if u.new_upload && up_en && !upload_ok {
        return None;
    }
    let comments = if c_en {
        accepted_comments(&u.torrent.comments, outcomes)
    } else {
        let ghost sv = thread_view(u.torrent.comments@);
        let mut kept: Vec<NyaaComment> = Vec::new();
        let mut i: usize = 0;
        while i < u.torrent.comments.len()
            invariant
                i <= u.torrent.comments.len(),
                sv == thread_view(u.torrent.comments@),
                thread_view(kept@) + spec_undeleted_from(sv, i as int) == spec_undeleted(sv),
            decreases u.torrent.comments.len() - i,
        {
            let ghost k_old = thread_view(kept@);
            let c = &u.torrent.comments[i];
            if !matches!(c.update_type, NyaaCommentUpdateType::DELETED) {
                kept.push(c.duplicate());
            }
            proof {
                let head: Seq<CommentV> = if sv[i as int].update_type is DELETED {
                    Seq::empty()
                } else {
                    seq![sv[i as int]]
                };
                assert(thread_view(kept@) =~= k_old + head);
                assert((k_old + head) + spec_undeleted_from(sv, i as int + 1) =~= k_old + (head
                    + spec_undeleted_from(sv, i as int + 1)));
            }
            i += 1;
        }
        proof {
            assert(spec_undeleted_from(sv, sv.len() as int) =~= Seq::<CommentV>::empty());
            assert(thread_view(kept@) =~= thread_view(kept@) + Seq::<CommentV>::empty());
        }
        kept
    };
    let mut torrent = u.torrent.duplicate();
    torrent.comments = comments;
    let r = NyaaUpdate { new_upload: u.new_upload, torrent };
    proof {
        assert(Some(r@) =~= spec_dispatch_update(
            u@,
            uploads_enabled(*module),
            comments_enabled(*module),
            upload_ok,
            outcomes@,
        ));
    }
    Some(r)
}



/// The accepted updates of a whole cycle from index `i` on, in delivery
/// order: each update's accepted copy, with wholly rejected updates left
/// out.
pub open spec fn spec_dispatch_from(
    us: Seq<UpdateV>,
    up_en: bool,
    c_en: bool,
    upload_oks: Seq<bool>,
    outcomes: Seq<Seq<bool>>,
    i: int,
) -> Seq<UpdateV>
    decreases us.len() - i,
{
    if i < 0 || i >= us.len() {
        Seq::empty()
    } else {
        let head: Seq<UpdateV> = match spec_dispatch_update(
            us[i],
            up_en,
            c_en,
            upload_oks[i],
            outcomes[i],
        ) {
            Some(u) => seq![u],
            None => Seq::empty(),
        };
        head + spec_dispatch_from(us, up_en, c_en, upload_oks, outcomes, i + 1)
    }
}

/// Routes a whole cycle's updates through the dispatcher bookkeeping, in
/// source order, and returns the accepted subset that advances the
/// persisted state. `upload_oks[i]` is the outcome of update `i`'s
/// upload notification, `outcomes[i][j]` the outcome of the send of its
/// comment `j`.
pub fn dispatch_updates(
    module: &ModuleConfig,
    updates: &Vec<NyaaUpdate>,
    upload_oks: &Vec<bool>,
    outcomes: &Vec<Vec<bool>>,
) -> (r: Vec<NyaaUpdate>)
    requires
        wf_module(*module),
        upload_oks@.len() == updates@.len(),
        outcomes@.len() == updates@.len(),
        forall|i: int|
            0 <= i < updates@.len() ==> (#[trigger] outcomes@[i])@.len()
                == updates@[i].torrent.comments@.len(),
        forall|i: int|
            0 <= i < updates@.len() ==> wf_thread(
                thread_view((#[trigger] updates@[i]).torrent.comments@),
            ),
    ensures
        updates_view(r@) == spec_dispatch_from(
            updates_view(updates@),
            uploads_enabled(*module),
            comments_enabled(*module),
            upload_oks@,
            outcomes@.map_values(|o: Vec<bool>| o@),
            0,
        ),
{
    let ghost uv = updates_view(updates@);
    let ghost ov = outcomes@.map_values(|o: Vec<bool>| o@);
    let ghost up_en = uploads_enabled(*module);
    let ghost c_en = comments_enabled(*module);
    let mut r: Vec<NyaaUpdate> = Vec::new();
    let mut i: usize = 0;
    while i < updates.len()
        invariant
            i <= updates.len(),
            uv == updates_view(updates@),
            ov == outcomes@.map_values(|o: Vec<bool>| o@),
            up_en == uploads_enabled(*module),
            c_en == comments_enabled(*module),
            wf_module(*module),
            upload_oks@.len() == updates@.len(),
            outcomes@.len() == updates@.len(),
            forall|j: int|
                0 <= j < updates@.len() ==> (#[trigger] outcomes@[j])@.len()
                    == updates@[j].torrent.comments@.len(),
            forall|j: int|
                0 <= j < updates@.len() ==> wf_thread(
                    thread_view((#[trigger] updates@[j]).torrent.comments@),
                ),
            updates_view(r@) + spec_dispatch_from(uv, up_en, c_en, upload_oks@, ov, i as int)
                == spec_dispatch_from(uv, up_en, c_en, upload_oks@, ov, 0),
        decreases updates.len() - i,
    {
        let ghost r_old = updates_view(r@);
        let accepted = dispatch_update(module, &updates[i], upload_oks[i], &outcomes[i]);
        match accepted {
            Some(u) => {
                let ghost uview = u@;
                r.push(u);
                proof {
                    assert(updates_view(r@) =~= r_old + seq![uview]);
                }
            },
            None => {},
        }
        proof {
            let head: Seq<UpdateV> = match spec_dispatch_update(
                uv[i as int],
                up_en,
                c_en,
                upload_oks@[i as int],
                ov[i as int],
            ) {
                Some(u) => seq![u],
                None => Seq::empty(),
            };
            assert(updates_view(r@) =~= r_old + head);
            assert((r_old + head) + spec_dispatch_from(uv, up_en, c_en, upload_oks@, ov, i as int
                + 1) =~= r_old + (head + spec_dispatch_from(
                uv,
                up_en,
                c_en,
                upload_oks@,
                ov,
                i as int + 1,
            )));
        }
        i += 1;
    }
    proof {
        assert(spec_dispatch_from(uv, up_en, c_en, upload_oks@, ov, uv.len() as int) =~= Seq::<
            UpdateV,
        >::empty());
        assert(updates_view(r@) =~= updates_view(r@) + Seq::<UpdateV>::empty());
    }
    r
}
} // verus!
