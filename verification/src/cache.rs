//! The per-cycle fetch cache: pages and user profiles already retrieved
//! in this poll cycle, so nothing is fetched twice. The cache is a plain
//! value owned by one cycle; the network calls themselves happen outside
//! the library, which only decides here what is served from cache and
//! what more must be fetched.

use vstd::prelude::*;

use crate::model::{thread_view, NyaaComment, NyaaTorrent, NyaaUser, TorrentV, UserV};
use crate::reconcile::{has_id, torrents_view};
use crate::strutil::{
    replace_http_with_https, seq_contains_char, spec_ends_with, spec_replace_http_from,
    str_contains_char, str_ends_with,
};

verus! {

/// Most torrents served from a complete cached page to a shallower
/// request: one feed page's worth.
pub const FEED_CACHE_LIMIT: usize = 85;

/// One fetched feed page: its URL, whether every page of the query was
/// retrieved, and the torrents found.
#[derive(Debug, Clone)]
pub struct NyaaPage {
    pub url: String,
    pub complete: bool,
    pub torrents: Vec<NyaaTorrent>,
}

/// Mathematical view of a `NyaaPage`.
#[verifier::ext_equal]
pub struct PageV {
    pub url: Seq<char>,
    pub complete: bool,
    pub torrents: Seq<TorrentV>,
}

impl View for NyaaPage {
    type V = PageV;

    open spec fn view(&self) -> PageV {
        PageV { url: self.url@, complete: self.complete, torrents: torrents_view(self.torrents@) }
    }
}

/// View of a list of pages.
pub open spec fn pages_view(s: Seq<NyaaPage>) -> Seq<PageV> {
    s.map_values(|p: NyaaPage| p@)
}

/// View of a list of users.
pub open spec fn users_view(s: Seq<NyaaUser>) -> Seq<UserV> {
    s.map_values(|u: NyaaUser| u@)
}

/// The fetch cache of one poll cycle.
pub struct Web {
    pub cache_users: Vec<NyaaUser>,
    pub cache_pages: Vec<NyaaPage>,
}

impl Default for Web {
    /// An empty cache.
    fn default() -> (r: Web)
        ensures
            r.cache_users@.len() == 0,
            r.cache_pages@.len() == 0,
    {
        Web::new()
    }
}

/// The avatar the cache knows for this username: the first cached entry
/// of the user that carries one.
pub open spec fn spec_cached_avatar_from(users: Seq<UserV>, name: Seq<char>, i: int) -> Option<
    Seq<char>,
>
    decreases users.len() - i,
{
    if i < 0 || i >= users.len() {
        None
    } else if users[i].username == name && users[i].avatar is Some {
        users[i].avatar
    } else {
        spec_cached_avatar_from(users, name, i + 1)
    }
}

/// Torrents of `ts` from index `i` on appended to `acc`, first
/// occurrence of each id only, stopping at `limit` entries.
pub open spec fn spec_take_unique(
    acc: Seq<TorrentV>,
    ts: Seq<TorrentV>,
    i: int,
    limit: int,
) -> Seq<TorrentV>
    decreases ts.len() - i,
{
    if i < 0 || i >= ts.len() || acc.len() >= limit {
        acc
    } else if has_id(acc, ts[i].id) {
        spec_take_unique(acc, ts, i + 1, limit)
    } else {
        spec_take_unique(acc.push(ts[i]), ts, i + 1, limit)
    }
}

impl Web {
    /// An empty cache.
    pub fn new() -> (r: Web)
        ensures
            r.cache_users@.len() == 0,
            r.cache_pages@.len() == 0,
    {
        Web { cache_users: Vec::new(), cache_pages: Vec::new() }
    }

    /// Remembers a user profile for the rest of the cycle.
    pub fn cache_user(&mut self, u: NyaaUser)
        ensures
            users_view(final(self).cache_users@) == users_view(old(self).cache_users@).push(u@),
            final(self).cache_pages@ == old(self).cache_pages@,
    {
        let ghost uv = u@;
        self.cache_users.push(u);
        proof {
            assert(users_view(self.cache_users@) =~= users_view(old(self).cache_users@).push(uv));
        }
    }

    /// Remembers the author of every comment of a freshly fetched
    /// thread, so avatar lookups in this cycle are served from cache.
    pub fn cache_comment_users(&mut self, comments: &Vec<NyaaComment>)
        ensures
            users_view(final(self).cache_users@) == users_view(old(self).cache_users@)
                + thread_view(comments@).map_values(|c: crate::model::CommentV| c.user),
            final(self).cache_pages@ == old(self).cache_pages@,
    {
        let ghost base = users_view(self.cache_users@);
        let mut i: usize = 0;
        while i < comments.len()
            invariant
                i <= comments.len(),
                base == users_view(old(self).cache_users@),
                self.cache_pages@ == old(self).cache_pages@,
                users_view(self.cache_users@).len() == base.len() + i,
                forall|j: int| 0 <= j < base.len() ==> users_view(self.cache_users@)[j] == base[j],
                forall|j: int|
                    0 <= j < i ==> users_view(self.cache_users@)[base.len() + j] == thread_view(
                        comments@,
                    )[j].user,
            decreases comments.len() - i,
        {
            self.cache_users.push(comments[i].user.duplicate());
            i += 1;
        }
        proof {
            assert(users_view(self.cache_users@) =~= base + thread_view(comments@).map_values(
                |c: crate::model::CommentV| c.user,
            ));
        }
    }

    /// Remembers a fetched feed page for the rest of the cycle.
    pub fn add_page(&mut self, url: String, complete: bool, torrents: Vec<NyaaTorrent>)
        ensures
            pages_view(final(self).cache_pages@) == pages_view(old(self).cache_pages@).push(
                PageV { url: url@, complete, torrents: torrents_view(torrents@) },
            ),
            final(self).cache_users@ == old(self).cache_users@,
    {
        let ghost pv = PageV { url: url@, complete, torrents: torrents_view(torrents@) };
        self.cache_pages.push(NyaaPage { url, complete, torrents });
        proof {
            assert(pages_view(self.cache_pages@) =~= pages_view(old(self).cache_pages@).push(pv));
        }
    }

    /// The avatar already fetched for this username in this cycle, if
    /// any; see [`spec_cached_avatar_from`].
    pub fn find_cached_avatar(&self, username: &String) -> (r: Option<String>)
        ensures
            crate::model::opt_view(r) == spec_cached_avatar_from(
                users_view(self.cache_users@),
                username@,
                0,
            ),
    {
        let ghost uv = users_view(self.cache_users@);
        let mut i: usize = 0;
        while i < self.cache_users.len()
            invariant
                i <= self.cache_users.len(),
                uv == users_view(self.cache_users@),
                spec_cached_avatar_from(uv, username@, i as int) == spec_cached_avatar_from(
                    uv,
                    username@,
                    0,
                ),
            decreases self.cache_users.len() - i,
        {
            let u = &self.cache_users[i];
            if u.username == *username {
                match &u.avatar {
                    Some(a) => {
                        return Some(a.clone());
                    },
                    None => {},
                }
            }
            i += 1;
        }
        None
    }

    /// The fully loaded copy of this torrent already fetched in this
    /// cycle, if any page of the cache holds one.
    pub fn find_cached_torrent(&self, id: u64) -> (r: Option<NyaaTorrent>)
        ensures
            match r {
                Some(t) => t@.id == id && t@.comments.len() > 0 && exists|p: int, j: int|
                    0 <= p < pages_view(self.cache_pages@).len() && 0 <= j < pages_view(
                        self.cache_pages@,
                    )[p].torrents.len() && pages_view(self.cache_pages@)[p].torrents[j] == t@,
                None => forall|p: int, j: int|
                    0 <= p < pages_view(self.cache_pages@).len() && 0 <= j < pages_view(
                        self.cache_pages@,
                    )[p].torrents.len() ==> !((#[trigger] pages_view(
                        self.cache_pages@,
                    )[p].torrents[j]).id == id && pages_view(self.cache_pages@)[p].torrents[j]
                        .comments.len() > 0),
            },
    {
        let ghost pgs = pages_view(self.cache_pages@);
        let mut p: usize = 0;
        while p < self.cache_pages.len()
            invariant
                p <= self.cache_pages.len(),
                pgs == pages_view(self.cache_pages@),
                forall|q: int, j: int|
                    0 <= q < p && 0 <= j < pgs[q].torrents.len() ==> !((#[trigger] pgs[q]
                        .torrents[j]).id == id && pgs[q].torrents[j].comments.len() > 0),
            decreases self.cache_pages.len() - p,
        {
            let page = &self.cache_pages[p];
            proof {
                assert(pgs[p as int] == self.cache_pages@[p as int]@);
            }
            let mut j: usize = 0;
            while j < page.torrents.len()
                invariant
                    j <= page.torrents.len(),
                    p < self.cache_pages.len(),
                    page == &self.cache_pages[p as int],
                    pgs == pages_view(self.cache_pages@),
                    pgs[p as int] == self.cache_pages@[p as int]@,
                    forall|k: int|
                        0 <= k < j ==> !((#[trigger] pgs[p as int].torrents[k]).id == id
                            && pgs[p as int].torrents[k].comments.len() > 0),
                decreases page.torrents.len() - j,
            {
                let t = &page.torrents[j];
                if t.id == id && t.comments.len() > 0 {
                    let r = t.duplicate();
                    proof {
                        assert(pgs[p as int].torrents[j as int] == page.torrents@[j as int]@);
                    }
                    return Some(r);
                }
                proof {
                    assert(pgs[p as int].torrents[j as int] == page.torrents@[j as int]@);
                }
                j += 1;
            }
            p += 1;
        }
        None
    }

    /// Serves a feed request from the pages cached this cycle: the
    /// torrents already known for this URL (first occurrence of each
    /// id), and whether the cache already holds the complete query.
    ///
    /// A complete cached page answering a shallower request serves at
    /// most one page's worth; a complete request served from shallow
    /// cache still needs the remaining pages fetched (the flag stays
    /// down).
    pub fn search_cached(&self, url: &String, complete: bool) -> (r: (Vec<NyaaTorrent>, bool))
        ensures
            spec_search_cached(pages_view(self.cache_pages@), url@, complete) == (
                torrents_view(r.0@),
                r.1,
            ),
    {
        let ghost pgs = pages_view(self.cache_pages@);
        let mut torrents: Vec<NyaaTorrent> = Vec::new();
        proof {
            assert(torrents_view(torrents@) =~= Seq::<TorrentV>::empty());
        }
        let mut cache_complete = false;
        let mut p: usize = 0;
        while p < self.cache_pages.len()
            invariant
                p <= self.cache_pages.len(),
                pgs == pages_view(self.cache_pages@),
                spec_search_cached_from(
                    pgs,
                    url@,
                    complete,
                    torrents_view(torrents@),
                    cache_complete,
                    p as int,
                ) == spec_search_cached(pgs, url@, complete),
            decreases self.cache_pages.len() - p,
        {
            let page = &self.cache_pages[p];
            proof {
                assert(pgs[p as int] == self.cache_pages@[p as int]@);
            }
            if page.url == *url {
                if page.complete && !complete {
                    take_unique(&mut torrents, &page.torrents, FEED_CACHE_LIMIT);
                    return (torrents, cache_complete);
                } else {
                    take_unique(&mut torrents, &page.torrents, usize::MAX);
                    if page.complete {
                        cache_complete = true;
                    }
                    if !complete {
                        return (torrents, cache_complete);
                    }
                }
            }
            p += 1;
        }
        (torrents, cache_complete)
    }
}

/// The cache-serving scan from page `i` on, carrying the torrents and
/// completeness flag gathered so far.
pub open spec fn spec_search_cached_from(
    pages: Seq<PageV>,
    url: Seq<char>,
    complete: bool,
    acc: Seq<TorrentV>,
    cache_complete: bool,
    i: int,
) -> (Seq<TorrentV>, bool)
    decreases pages.len() - i,
{
    if i < 0 || i >= pages.len() {
        (acc, cache_complete)
    } else if pages[i].url == url {
        if pages[i].complete && !complete {
            (spec_take_unique(acc, pages[i].torrents, 0, FEED_CACHE_LIMIT as int), cache_complete)
        } else {
            let acc2 = spec_take_unique(acc, pages[i].torrents, 0, usize::MAX as int);
            let cc2 = cache_complete || pages[i].complete;
            if !complete {
                (acc2, cc2)
            } else {
                spec_search_cached_from(pages, url, complete, acc2, cc2, i + 1)
            }
        }
    } else {
        spec_search_cached_from(pages, url, complete, acc, cache_complete, i + 1)
    }
}

/// What the cache serves for a feed request; see
/// [`Web::search_cached`].
pub open spec fn spec_search_cached(pages: Seq<PageV>, url: Seq<char>, complete: bool) -> (
    Seq<TorrentV>,
    bool,
) {
    spec_search_cached_from(pages, url, complete, Seq::empty(), false, 0)
}

/// Appends the torrents of one page to the accumulator, first
/// occurrence of each id only, stopping at `limit` entries; see
/// [`spec_take_unique`].
pub fn take_unique(acc: &mut Vec<NyaaTorrent>, ts: &Vec<NyaaTorrent>, limit: usize)
    ensures
        torrents_view(final(acc)@) == spec_take_unique(
            torrents_view(old(acc)@),
            torrents_view(ts@),
            0,
            limit as int,
        ),
{
    let ghost tv = torrents_view(ts@);
    let ghost goal = spec_take_unique(torrents_view(old(acc)@), tv, 0, limit as int);
    let mut i: usize = 0;
    while i < ts.len()
        invariant
            i <= ts.len(),
            tv == torrents_view(ts@),
            goal == spec_take_unique(torrents_view(old(acc)@), tv, 0, limit as int),
            spec_take_unique(torrents_view(acc@), tv, i as int, limit as int) == goal,
        decreases ts.len() - i,
    {
        if acc.len() >= limit {
            proof {
                assert(torrents_view(acc@).len() == acc@.len());
                assert(spec_take_unique(torrents_view(acc@), tv, i as int, limit as int)
                    == torrents_view(acc@));
            }
            return ;
        }
        let present = crate::reconcile::find_torrent_by_id(acc, ts[i].id).is_some();
        if !present {
            let ghost before = torrents_view(acc@);
            acc.push(ts[i].duplicate());
            proof {
                assert(torrents_view(acc@) =~= before.push(tv[i as int]));
            }
        }
        i += 1;
    }
    proof {
        assert(spec_take_unique(torrents_view(acc@), tv, i as int, limit as int) == torrents_view(
            acc@,
        ));
    }
}



/// A feed URL normalized for page requests: a query separator appended
/// (`&` when the URL already has a query, a path and `?` on the bare
/// host, plain `?` otherwise), and the plain scheme upgraded.
pub open spec fn spec_normalize_feed_url(u: Seq<char>) -> Seq<char> {
    let with_sep: Seq<char> = if seq_contains_char(u, '?') {
        u + seq!['&']
    } else if spec_ends_with(u, "nyaa.si"@) {
        u + seq!['/', '?']
    } else {
        u + seq!['?']
    };
    spec_replace_http_from(with_sep, 0)
}

/// Normalizes a feed URL for page requests; see
/// [`spec_normalize_feed_url`].
pub fn normalize_feed_url(url: &String) -> (r: String)
    ensures
        r@ == spec_normalize_feed_url(url@),
{
    let mut base = url.clone();
    if str_contains_char(url.as_str(), '?') {
        base.append("&");
        proof {
            reveal_strlit("&");
            assert(base@ =~= url@ + seq!['&']);
        }
    } else if str_ends_with(url.as_str(), "nyaa.si") {
        base.append("/?");
        proof {
            reveal_strlit("/?");
            assert(base@ =~= url@ + seq!['/', '?']);
        }
    } else {
        base.append("?");
        proof {
            reveal_strlit("?");
            assert(base@ =~= url@ + seq!['?']);
        }
    }
    replace_http_with_https(base.as_str())
}


/// What remains to fetch after the cache served a feed request.
#[derive(Clone, Copy, PartialEq, Eq, Structural, Debug)]
pub enum FetchPlan {
    /// The cache already answers the request.
    NoFetch,
    /// Nothing cached: fetch from the first page.
    FetchAllPages,
    /// A shallow cache answered a complete request: fetch only the pages
    /// past the first.
    FetchRemainingPages,
}

/// Decides what to fetch after the cache was consulted: nothing came
/// back means everything must be fetched; a complete request served from
/// a shallow cache still needs the later pages; anything else is served
/// as is.
pub fn plan_feed_fetch(cached_count: usize, complete: bool, cache_complete: bool) -> (r: FetchPlan)
    ensures
        r == (if cached_count == 0 {
            FetchPlan::FetchAllPages
        } else if complete && !cache_complete {
            FetchPlan::FetchRemainingPages
        } else {
            FetchPlan::NoFetch
        }),
{
    if cached_count == 0 {
        FetchPlan::FetchAllPages
    } else if complete && !cache_complete {
        FetchPlan::FetchRemainingPages
    } else {
        FetchPlan::NoFetch
    }
}
} // verus!
