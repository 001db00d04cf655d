//! Core data model: torrents, comments, users and update envelopes.
//!
//! Timestamps are unix seconds held as plain integers. A comment has no
//! stable id at the source; its identity is the composite key
//! (author username, creation timestamp). Each executable type has a
//! mathematical view (`UserV`, `CommentV`, ...) over which every contract
//! of the library is stated.

use vstd::prelude::*;

verus! {

/// Latest timestamp the library accepts: one second before year 10000 UTC.
/// Keeps window arithmetic free of overflow and timestamps formattable
/// with four-digit years.
pub const MAX_TIMESTAMP: u64 = 253402300799;

/// Lifecycle state of one comment, as classified by the reconciler and
/// advanced by the dispatcher.
#[derive(Clone, Copy, PartialEq, Eq, Structural, Debug)]
pub enum NyaaCommentUpdateType {
    NEW,
    EDITED,
    DELETED,
    UNDECIDED,
    UNCHECKED,
}

/// A user as seen on a torrent page or comment.
#[derive(Debug, Clone)]
pub struct NyaaUser {
    pub anonymous: bool,
    pub role: String,
    pub username: String,
    pub avatar: Option<String>,
    pub banned: bool,
}

/// Mathematical view of a `NyaaUser`.
#[verifier::ext_equal]
pub struct UserV {
    pub anonymous: bool,
    pub role: Seq<char>,
    pub username: Seq<char>,
    pub avatar: Option<Seq<char>>,
    pub banned: bool,
}

/// One comment of a torrent's thread. Identity is
/// (username, date_timestamp); `old_message` and `old_edited_timestamp`
/// are populated only when the comment is classified `EDITED`.
#[derive(Debug, Clone)]
pub struct NyaaComment {
    pub user: NyaaUser,
    pub message: String,
    pub old_message: Option<String>,
    pub uploader: bool,
    pub date_timestamp: u64,
    pub edited_timestamp: Option<u64>,
    pub old_edited_timestamp: Option<u64>,
    pub direct_link: String,
    pub update_type: NyaaCommentUpdateType,
}

/// Mathematical view of a `NyaaComment`.
#[verifier::ext_equal]
pub struct CommentV {
    pub user: UserV,
    pub message: Seq<char>,
    pub old_message: Option<Seq<char>>,
    pub uploader: bool,
    pub date_timestamp: u64,
    pub edited_timestamp: Option<u64>,
    pub old_edited_timestamp: Option<u64>,
    pub direct_link: Seq<char>,
    pub update_type: NyaaCommentUpdateType,
}

/// Snapshot of one torrent's metadata and (possibly partially loaded)
/// comment thread.
#[derive(Debug, Clone)]
pub struct NyaaTorrent {
    pub uploader: Option<NyaaUser>,
    pub id: u64,
    pub domain: String,
    pub title: String,
    pub category: String,
    pub size: String,
    pub magnet_link: String,
    pub upload_date_str: String,
    pub upload_date_timestamp: u64,
    pub seeders: u64,
    pub leechers: u64,
    pub completed: u64,
    pub comments_amount: u64,
    pub comments: Vec<NyaaComment>,
}

/// Mathematical view of a `NyaaTorrent`.
#[verifier::ext_equal]
pub struct TorrentV {
    pub uploader: Option<UserV>,
    pub id: u64,
    pub domain: Seq<char>,
    pub title: Seq<char>,
    pub category: Seq<char>,
    pub size: Seq<char>,
    pub magnet_link: Seq<char>,
    pub upload_date_str: Seq<char>,
    pub upload_date_timestamp: u64,
    pub seeders: u64,
    pub leechers: u64,
    pub completed: u64,
    pub comments_amount: u64,
    pub comments: Seq<CommentV>,
}

/// An event envelope produced by the reconciler and consumed once by the
/// dispatcher.
#[derive(Debug, Clone)]
pub struct NyaaUpdate {
    pub new_upload: bool,
    pub torrent: NyaaTorrent,
}

/// Mathematical view of a `NyaaUpdate`.
#[verifier::ext_equal]
pub struct UpdateV {
    pub new_upload: bool,
    pub torrent: TorrentV,
}

/// View of an optional string.
pub open spec fn opt_view(s: Option<String>) -> Option<Seq<char>> {
    match s {
        Some(x) => Some(x@),
        None => None,
    }
}

impl View for NyaaUser {
    type V = UserV;

    open spec fn view(&self) -> UserV {
        UserV {
            anonymous: self.anonymous,
            role: self.role@,
            username: self.username@,
            avatar: opt_view(self.avatar),
            banned: self.banned,
        }
    }
}

impl View for NyaaComment {
    type V = CommentV;

    open spec fn view(&self) -> CommentV {
        CommentV {
            user: self.user@,
            message: self.message@,
            old_message: opt_view(self.old_message),
            uploader: self.uploader,
            date_timestamp: self.date_timestamp,
            edited_timestamp: self.edited_timestamp,
            old_edited_timestamp: self.old_edited_timestamp,
            direct_link: self.direct_link@,
            update_type: self.update_type,
        }
    }
}

/// View of a whole comment thread.
pub open spec fn thread_view(s: Seq<NyaaComment>) -> Seq<CommentV> {
    s.map_values(|c: NyaaComment| c@)
}

impl View for NyaaTorrent {
    type V = TorrentV;

    open spec fn view(&self) -> TorrentV {
        TorrentV {
            uploader: match self.uploader {
                Some(u) => Some(u@),
                None => None,
            },
            id: self.id,
            domain: self.domain@,
            title: self.title@,
            category: self.category@,
            size: self.size@,
            magnet_link: self.magnet_link@,
            upload_date_str: self.upload_date_str@,
            upload_date_timestamp: self.upload_date_timestamp,
            seeders: self.seeders,
            leechers: self.leechers,
            completed: self.completed,
            comments_amount: self.comments_amount,
            comments: thread_view(self.comments@),
        }
    }
}

impl View for NyaaUpdate {
    type V = UpdateV;

    open spec fn view(&self) -> UpdateV {
        UpdateV { new_upload: self.new_upload, torrent: self.torrent@ }
    }
}

impl NyaaUser {
    /// Copy whose view equals the original's.
    pub fn duplicate(&self) -> (r: NyaaUser)
        ensures
            r@ == self@,
    {
        let r = NyaaUser {
            anonymous: self.anonymous,
            role: self.role.clone(),
            username: self.username.clone(),
            avatar: duplicate_opt_string(&self.avatar),
            banned: self.banned,
        };
        proof {
            assert(r@ =~= self@);
        }
        r
    }
}

/// Copy of an optional string with the same view.
pub fn duplicate_opt_string(s: &Option<String>) -> (r: Option<String>)
    ensures
        opt_view(r) == opt_view(*s),
{
    match s {
        Some(x) => Some(x.clone()),
        None => None,
    }
}

impl NyaaComment {
    /// Copy whose view equals the original's.
    pub fn duplicate(&self) -> (r: NyaaComment)
        ensures
            r@ == self@,
    {
        let r = NyaaComment {
            user: self.user.duplicate(),
            message: self.message.clone(),
            old_message: duplicate_opt_string(&self.old_message),
            uploader: self.uploader,
            date_timestamp: self.date_timestamp,
            edited_timestamp: self.edited_timestamp,
            old_edited_timestamp: self.old_edited_timestamp,
            direct_link: self.direct_link.clone(),
            update_type: self.update_type,
        };
        proof {
            assert(r@ =~= self@);
        }
        r
    }

    /// The same comment under another lifecycle state.
    pub fn with_type(&self, t: NyaaCommentUpdateType) -> (r: NyaaComment)
        ensures
            r@ == (CommentV { update_type: t, ..self@ }),
    {
        let mut c = self.duplicate();
        c.update_type = t;
        proof {
            assert(c@ =~= (CommentV { update_type: t, ..self@ }));
        }
        c
    }
}

/// Copy of a whole thread with the same view.
pub fn duplicate_comments(v: &Vec<NyaaComment>) -> (r: Vec<NyaaComment>)
    ensures
        thread_view(r@) == thread_view(v@),
{
    let mut r: Vec<NyaaComment> = Vec::new();
    let mut i: usize = 0;
    while i < v.len()
        invariant
            i <= v.len(),
            r@.len() == i,
            forall|j: int| 0 <= j < i ==> #[trigger] r@[j]@ == v@[j]@,
        decreases v.len() - i,
    {
        r.push(v[i].duplicate());
        i += 1;
    }
    proof {
        assert(thread_view(r@) =~= thread_view(v@));
    }
    r
}

impl NyaaTorrent {
    /// Copy whose view equals the original's.
    pub fn duplicate(&self) -> (r: NyaaTorrent)
        ensures
            r@ == self@,
    {
        let r = NyaaTorrent {
            uploader: match &self.uploader {
                Some(u) => Some(u.duplicate()),
                None => None,
            },
            id: self.id,
            domain: self.domain.clone(),
            title: self.title.clone(),
            category: self.category.clone(),
            size: self.size.clone(),
            magnet_link: self.magnet_link.clone(),
            upload_date_str: self.upload_date_str.clone(),
            upload_date_timestamp: self.upload_date_timestamp,
            seeders: self.seeders,
            leechers: self.leechers,
            completed: self.completed,
            comments_amount: self.comments_amount,
            comments: duplicate_comments(&self.comments),
        };
        proof {
            assert(r@ =~= self@);
        }
        r
    }
}

impl NyaaUpdate {
    /// Copy whose view equals the original's.
    pub fn duplicate(&self) -> (r: NyaaUpdate)
        ensures
            r@ == self@,
    {
        let r = NyaaUpdate { new_upload: self.new_upload, torrent: self.torrent.duplicate() };
        proof {
            assert(r@ =~= self@);
        }
        r
    }
}

/// Whether a comment's timestamps stay clear of the overflow bound and its
/// `EDITED` bookkeeping fields are present when its state demands them.
pub open spec fn wf_comment(c: CommentV) -> bool {
    &&& c.date_timestamp <= MAX_TIMESTAMP
    &&& match c.edited_timestamp {
        Some(t) => t <= MAX_TIMESTAMP,
        None => true,
    }
    &&& (c.update_type is EDITED ==> c.old_message is Some)
}

/// Every comment of the thread is well formed.
pub open spec fn wf_thread(s: Seq<CommentV>) -> bool {
    forall|i: int| 0 <= i < s.len() ==> #[trigger] wf_comment(s[i])
}

/// Identity of two comments: same author username and same creation
/// timestamp. The source gives comments no stable id.
pub open spec fn key_eq(a: CommentV, b: CommentV) -> bool {
    a.user.username == b.user.username && a.date_timestamp == b.date_timestamp
}

/// Some comment of the thread shares `c`'s identity key.
pub open spec fn thread_has_key(s: Seq<CommentV>, c: CommentV) -> bool {
    exists|i: int| 0 <= i < s.len() && key_eq(s[i], c)
}

/// No two comments of the thread share an identity key.
pub open spec fn unique_keys(s: Seq<CommentV>) -> bool {
    forall|i: int, j: int|
        0 <= i < s.len() && 0 <= j < s.len() && i != j ==> !key_eq(s[i], s[j])
}

/// The comment thread is fully loaded: the source's comment counter equals
/// the thread's length.
pub open spec fn fully_loaded(t: TorrentV) -> bool {
    t.comments.len() == t.comments_amount
}

} // verus!
