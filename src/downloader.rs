use vstd::prelude::*;
use vstd::string::*;
use crate::filename::{
    candidates_of, dot_free, filename, lemma_candidates_named_after_post, lemma_filenames_distinct,
    lemma_post_filenames_distinct, media_candidates, pairs_view,
};
use crate::model::{Media, Tweet, TweetResp, User};
use crate::url::{query_text, UrlBuilder};

verus! {

/// The first user of `us` with the identifier `id`.
pub open spec fn lookup(us: Seq<User>, id: Seq<char>) -> Option<User>
    decreases us.len(),
{
    if us.len() == 0 {
        None
    } else if us[0].id@ == id {
        Some(us[0])
    } else {
        lookup(us.drop_first(), id)
    }
}

/// The identifiers of a sequence of users.
pub open spec fn ids_of(us: Seq<User>) -> Seq<Seq<char>> {
    us.map_values(|u: User| u.id@)
}

/// The cache after taking in `us` in order: a user whose identifier is
/// already cached is left out, so nothing is overwritten.
pub open spec fn absorbed(cache: Seq<User>, us: Seq<User>) -> Seq<User>
    decreases us.len(),
{
    if us.len() == 0 {
        cache
    } else {
        let prev = absorbed(cache, us.drop_last());
        if lookup(prev, us.last().id@) is None {
            prev.push(us.last())
        } else {
            prev
        }
    }
}

/// The media record that a key names in a page's side list; a later record
/// with the same key replaces an earlier one.
pub open spec fn media_lookup(ms: Seq<Media>, key: Seq<char>) -> Option<Media>
    decreases ms.len(),
{
    if ms.len() == 0 {
        None
    } else if ms.last().media_key@ == key {
        Some(ms.last())
    } else {
        media_lookup(ms.drop_last(), key)
    }
}

/// The media of each key in order, or `None` when some key names no record.
pub open spec fn resolve_media(keys: Seq<String>, ms: Seq<Media>) -> Option<Seq<Media>>
    decreases keys.len(),
{
    if keys.len() == 0 {
        Some(Seq::empty())
    } else {
        match resolve_media(keys.drop_last(), ms) {
            Some(prev) => match media_lookup(ms, keys.last()@) {
                Some(m) => Some(prev.push(m)),
                None => None,
            },
            None => None,
        }
    }
}

/// The candidates that a post contributes: none when its author is not
/// cached, or when one of its media keys names no record.
pub open spec fn post_candidates(cache: Seq<User>, media: Seq<Media>, t: Tweet) -> Seq<
    (Seq<char>, Seq<char>),
> {
    match lookup(cache, t.author_id@) {
        Some(a) => match t.attachments {
            Some(att) => match resolve_media(att.media_keys@, media) {
                Some(ms) => candidates_of(t.created_at@, a, t.id@, ms),
                None => Seq::empty(),
            },
            None => Seq::empty(),
        },
        None => Seq::empty(),
    }
}

/// The candidates of a page's posts, post after post.
pub open spec fn posts_candidates(cache: Seq<User>, media: Seq<Media>, posts: Seq<Tweet>) -> Seq<
    (Seq<char>, Seq<char>),
>
    decreases posts.len(),
{
    if posts.len() == 0 {
        Seq::empty()
    } else {
        posts_candidates(cache, media, posts.drop_last()) + post_candidates(
            cache,
            media,
            posts.last(),
        )
    }
}

/// The media side list of a page; empty when the page has none.
pub open spec fn page_media(resp: TweetResp) -> Seq<Media> {
    match resp.includes {
        Some(inc) => inc.media@,
        None => Seq::empty(),
    }
}

/// The candidates of a page against a cache.
pub open spec fn page_candidates(cache: Seq<User>, resp: TweetResp) -> Seq<(Seq<char>, Seq<char>)> {
    match resp.data {
        Some(posts) => posts_candidates(cache, page_media(resp), posts@),
        None => Seq::empty(),
    }
}

/// Whether some post refers to the author `id`.
pub open spec fn refers_to(posts: Seq<Tweet>, id: Seq<char>) -> bool {
    exists|i: int| 0 <= i < posts.len() && #[trigger] posts[i].author_id@ == id
}

/// Strings as character sequences.
pub open spec fn strs_view(v: Seq<String>) -> Seq<Seq<char>> {
    v.map_values(|x: String| x@)
}

/// Whether `s` is among the strings of `v`.
pub fn contains_str(v: &Vec<String>, s: &String) -> (r: bool)
    ensures
        r == strs_view(v@).contains(s@),
{
    let ghost vv = strs_view(v@);
    let mut i: usize = 0;
    while i < v.len()
        invariant
            i <= v.len(),
            vv == strs_view(v@),
            forall|j: int| 0 <= j < i ==> vv[j] != s@,
        decreases v.len() - i,
    {
        if v[i] == *s {
            assert(vv[i as int] == s@);
            return true;
        }
        i += 1;
    }
    false
}

/// The index of the media record that `key` names in `ms`, the last one
/// carrying that key.
fn find_media(ms: &Vec<Media>, key: &String) -> (r: Option<usize>)
    ensures
        r is None ==> media_lookup(ms@, key@) is None,
        r matches Some(i) ==> i < ms@.len() && media_lookup(ms@, key@) == Some(ms@[i as int]),
{
    let mut i: usize = ms.len();
    assert(ms@.take(i as int) =~= ms@);
    while i > 0
        invariant
            i <= ms.len(),
            media_lookup(ms@, key@) == media_lookup(ms@.take(i as int), key@),
        decreases i,
    {
        proof {
            let t = ms@.take(i as int);
            assert(t.drop_last() =~= ms@.take(i - 1));
            assert(t.last() == ms@[i - 1]);
        }
        if ms[i - 1].media_key == *key {
            return Some(i - 1);
        }
        i -= 1;
    }
    assert(ms@.take(0) =~= Seq::<Media>::empty());
    None
}

/// The media records that `keys` name, in order, or `None` when a key names
/// no record.
pub fn resolve_media_keys(keys: &Vec<String>, ms: &Vec<Media>) -> (r: Option<Vec<Media>>)
    ensures
        r is None <==> resolve_media(keys@, ms@) is None,
        r matches Some(v) ==> resolve_media(keys@, ms@) == Some(v@),
{
    let mut out: Vec<Media> = Vec::new();
    let mut i: usize = 0;
    while i < keys.len()
        invariant
            i <= keys.len(),
            resolve_media(keys@.take(i as int), ms@) == Some(out@),
        decreases keys.len() - i,
    {
        proof {
            let t = keys@.take(i + 1);
            assert(t.drop_last() =~= keys@.take(i as int));
            assert(t.last() == keys@[i as int]);
        }
        match find_media(ms, &keys[i]) {
            Some(j) => {
                out.push(ms[j].duplicate());
            },
            None => {
                proof {
                    lemma_resolve_none_extends(keys@, ms@, i as int + 1);
                }
                return None;
            },
        }
        i += 1;
    }
    assert(keys@.take(keys.len() as int) =~= keys@);
    Some(out)
}

/// Once a prefix of the keys fails to resolve, so do all the keys.
proof fn lemma_resolve_none_extends(keys: Seq<String>, ms: Seq<Media>, n: int)
    requires
        0 <= n <= keys.len(),
        resolve_media(keys.take(n), ms) is None,
    ensures
        resolve_media(keys, ms) is None,
    decreases keys.len() - n,
{
    if n < keys.len() {
        let t = keys.take(n + 1);
        assert(t.drop_last() =~= keys.take(n));
        lemma_resolve_none_extends(keys, ms, n + 1);
    } else {
        assert(keys.take(n) =~= keys);
    }
}

/// Holds the author cache across poll cycles, the identifiers of the tracked
/// users, and the access key that authenticated calls carry.
pub struct Downloader {
    user_cache: Vec<User>,
    pub user_ids: Vec<String>,
    access_key: String,
}

impl Downloader {
    /// The cached authors, in the order they were taken in.
    pub closed spec fn cached(&self) -> Seq<User> {
        self.user_cache@
    }

    /// The access key.
    pub closed spec fn key(&self) -> Seq<char> {
        self.access_key@
    }

    /// The identifiers of the tracked users.
    pub closed spec fn tracked_ids(&self) -> Seq<String> {
        self.user_ids@
    }

    /// No two cached authors share an identifier.
    pub open spec fn wf(&self) -> bool {
        ids_of(self.cached()).no_duplicates()
    }

    pub fn new(access_key: String) -> (r: Self)
        ensures
            r.wf(),
            r.cached() == Seq::<User>::empty(),
            r.key() == access_key@,
            r.tracked_ids() == Seq::<String>::empty(),
    {
        let r = Downloader { user_cache: Vec::new(), user_ids: Vec::new(), access_key };
        assert(ids_of(r.cached()) =~= Seq::<Seq<char>>::empty());
        r
    }

    /// The cached author with the identifier `id`.
    pub fn cached_user(&self, id: &String) -> (r: Option<User>)
        ensures
            r == lookup(self.cached(), id@),
    {
        match self.find_user(id) {
            Some(i) => Some(self.user_cache[i].duplicate()),
            None => None,
        }
    }

    fn find_user(&self, id: &String) -> (r: Option<usize>)
        ensures
            r is None <==> lookup(self.cached(), id@) is None,
            r matches Some(i) ==> i < self.cached().len() && lookup(self.cached(), id@) == Some(
                self.cached()[i as int],
            ),
    {
        let ghost us = self.cached();
        let mut i: usize = 0;
        assert(us.skip(0) =~= us);
        while i < self.user_cache.len()
            invariant
                us == self.cached(),
                i <= us.len(),
                lookup(us, id@) == lookup(us.skip(i as int), id@),
            decreases us.len() - i,
        {
            proof {
                assert(us.skip(i as int).drop_first() =~= us.skip(i + 1));
                assert(us.skip(i as int)[0] == us[i as int]);
            }
            if self.user_cache[i].id == *id {
                return Some(i);
            }
            i += 1;
        }
        None
    }

    /// The authors that `posts` refer to and the cache lacks, each once, in
    /// the order of first reference: what one batched lookup must carry.
    pub fn uncached_author_ids(&self, posts: &Vec<Tweet>) -> (r: Vec<String>)
        ensures
            strs_view(r@).no_duplicates(),
            forall|id: Seq<char>|
                strs_view(r@).contains(id) <==> (refers_to(posts@, id) && lookup(
                    self.cached(),
                    id,
                ) is None),
    {
        let mut r: Vec<String> = Vec::new();
        let mut i: usize = 0;
        while i < posts.len()
            invariant
                i <= posts.len(),
                strs_view(r@).no_duplicates(),
                forall|id: Seq<char>|
                    strs_view(r@).contains(id) <==> (refers_to(
                        posts@.take(i as int),
                        id,
                    ) && lookup(self.cached(), id) is None),
            decreases posts.len() - i,
        {
            let ghost before = strs_view(r@);
            let ghost t = posts@.take(i + 1);
            let a = &posts[i].author_id;
            proof {
                assert forall|id: Seq<char>| refers_to(t, id) <==> (refers_to(
                    posts@.take(i as int),
                    id,
                ) || id == a@) by {
                    if refers_to(t, id) {
                        let k = choose|k: int| 0 <= k < t.len() && #[trigger] t[k].author_id@ == id;
                        if k < i {
                            assert(posts@.take(i as int)[k] == t[k]);
                        }
                    }
                    if refers_to(posts@.take(i as int), id) {
                        let k = choose|k: int|
                            0 <= k < i && #[trigger] posts@.take(i as int)[k].author_id@ == id;
                        assert(t[k] == posts@.take(i as int)[k]);
                    }
                    if id == a@ {
                        assert(t[i as int].author_id@ == id);
                    }
                };
            }
            let found = self.find_user(a);
            let cached = found.is_some();
            assert(cached <==> lookup(self.cached(), a@) is Some);
            let seen = contains_str(&r, a);
            if !cached && !seen {
                r.push(a.clone());
            }
            proof {
                let after = strs_view(r@);
                if !cached && !seen {
                    assert(after =~= before.push(a@));
                    assert forall|j: int, k: int|
                        0 <= j < after.len() && 0 <= k < after.len() && j != k implies after[j]
                        != after[k] by {
                        if j == before.len() {
                            assert(after[k] == before[k]);
                        } else if k == before.len() {
                            assert(after[j] == before[j]);
                        }
                    };
                }
                assert forall|id: Seq<char>|
                    after.contains(id) <==> (refers_to(t, id) && lookup(self.cached(), id) is None) by {
                    if !cached && !seen {
                        if id == a@ {
                            assert(after[before.len() as int] == id);
                        }
                        if after.contains(id) && id != a@ {
                            let k = choose|k: int| 0 <= k < after.len() && after[k] == id;
                            assert(before[k] == id);
                            assert(before.contains(id));
                            assert(refers_to(posts@.take(i as int), id));
                            assert(refers_to(t, id));
                        }
                        if before.contains(id) {
                            let k = choose|k: int| 0 <= k < before.len() && before[k] == id;
                            assert(after[k] == id);
                        }
                    } else {
                        assert(after == before);
                        assert(refers_to(t, id) <==> (refers_to(posts@.take(i as int), id) || id
                            == a@));
                        if id == a@ && seen {
                            assert(before.contains(id));
                        }
                        if before.contains(id) {
                            assert(refers_to(posts@.take(i as int), id));
                            assert(refers_to(t, id));
                        }
                    }
                };
            }
            i += 1;
        }
        assert(posts@.take(posts.len() as int) =~= posts@);
        r
    }

    /// Takes in the users that a batched lookup returned; a user whose
    /// identifier is already cached is left as it was.
    pub fn cache_users(&mut self, users: &Vec<User>)
        requires
            old(self).wf(),
        ensures
            final(self).wf(),
            final(self).cached() == absorbed(old(self).cached(), users@),
            final(self).key() == old(self).key(),
            final(self).tracked_ids() == old(self).tracked_ids(),
    {
        let mut i: usize = 0;
        while i < users.len()
            invariant
                i <= users.len(),
                self.wf(),
                self.cached() == absorbed(old(self).cached(), users@.take(i as int)),
                self.key() == old(self).key(),
                self.tracked_ids() == old(self).tracked_ids(),
            decreases users.len() - i,
        {
            proof {
                let t = users@.take(i + 1);
                assert(t.drop_last() =~= users@.take(i as int));
                assert(t.last() == users@[i as int]);
            }
            let u = &users[i];
            if self.find_user(&u.id).is_none() {
                proof {
                    lemma_lookup_none_absent(self.cached(), u.id@);
                    assert(ids_of(self.cached().push(*u)) =~= ids_of(self.cached()).push(u.id@));
                }
                self.user_cache.push(u.duplicate());
            }
            i += 1;
        }
        assert(users@.take(users.len() as int) =~= users@);
    }

    /// The candidates of a page of posts, each post joined with its cached
    /// author and with the media of its keys.
    pub fn assemble_likes(&self, resp: &TweetResp) -> (r: Vec<(String, String)>)
        ensures
            pairs_view(r@) == page_candidates(self.cached(), *resp),
    {
        let empty: Vec<Media> = Vec::new();
        let media = match &resp.includes {
            Some(inc) => &inc.media,
            None => &empty,
        };
        let mut r: Vec<(String, String)> = Vec::new();
        match &resp.data {
            Some(posts) => {
                let mut i: usize = 0;
                while i < posts.len()
                    invariant
                        i <= posts.len(),
                        media@ == page_media(*resp),
                        resp.data == Some(*posts),
                        pairs_view(r@) == posts_candidates(
                            self.cached(),
                            media@,
                            posts@.take(i as int),
                        ),
                    decreases posts.len() - i,
                {
                    let ghost before = pairs_view(r@);
                    let t = &posts[i];
                    proof {
                        let p = posts@.take(i + 1);
                        assert(p.drop_last() =~= posts@.take(i as int));
                        assert(p.last() == *t);
                    }
                    let mut c = self.post_likes(t, media);
                    r.append(&mut c);
                    proof {
                        assert(pairs_view(r@) =~= before + post_candidates(
                            self.cached(),
                            media@,
                            *t,
                        ));
                    }
                    i += 1;
                }
                assert(posts@.take(posts.len() as int) =~= posts@);
            },
            None => {},
        }
        assert(pairs_view(r@) =~= page_candidates(self.cached(), *resp));
        r
    }

    /// The candidates of one post of a page.
    fn post_likes(&self, t: &Tweet, media: &Vec<Media>) -> (r: Vec<(String, String)>)
        ensures
            pairs_view(r@) == post_candidates(self.cached(), media@, *t),
    {
        match self.find_user(&t.author_id) {
            Some(k) => match &t.attachments {
                Some(att) => match resolve_media_keys(&att.media_keys, media) {
                    Some(ms) => media_candidates(&t.created_at, &self.user_cache[k], &t.id, &ms),
                    None => Vec::new(),
                },
                None => Vec::new(),
            },
            None => Vec::new(),
        }
    }

    /// The value of the Authorization header: `Bearer ` and the access key.
    pub fn bearer(&self) -> (r: String)
        ensures
            r@ == seq!['B', 'e', 'a', 'r', 'e', 'r', ' '] + self.key(),
    {
        proof {
            reveal_strlit("Bearer ");
        }
        let mut r = String::from_str("Bearer ");
        r.append(self.access_key.as_str());
        r
    }
}

/// An identifier that the lookup does not find is not among the identifiers.
proof fn lemma_lookup_none_absent(us: Seq<User>, id: Seq<char>)
    requires
        lookup(us, id) is None,
    ensures
        !ids_of(us).contains(id),
    decreases us.len(),
{
    if us.len() > 0 {
        lemma_lookup_none_absent(us.drop_first(), id);
        assert forall|k: int| 0 <= k < us.len() implies ids_of(us)[k] != id by {
            if k > 0 {
                assert(ids_of(us.drop_first())[k - 1] == ids_of(us)[k]);
            }
        };
    }
}

/// The strings joined by commas.
pub open spec fn comma_joined(v: Seq<Seq<char>>) -> Seq<char>
    decreases v.len(),
{
    if v.len() == 0 {
        Seq::empty()
    } else if v.len() == 1 {
        v[0]
    } else {
        comma_joined(v.drop_last()) + seq![','] + v.last()
    }
}

/// `prefix` followed by the strings joined by commas.
fn prefixed_list(prefix: &str, v: &Vec<String>) -> (r: String)
    ensures
        r@ == prefix@ + comma_joined(strs_view(v@)),
{
    let mut r = String::from_str(prefix);
    let mut i: usize = 0;
    while i < v.len()
        invariant
            i <= v.len(),
            r@ == prefix@ + comma_joined(strs_view(v@).take(i as int)),
        decreases v.len() - i,
    {
        proof {
            reveal_strlit(",");
            let t = strs_view(v@).take(i + 1);
            assert(t.drop_last() =~= strs_view(v@).take(i as int));
            assert(t.last() == v@[i as int]@);
        }
        if i > 0 {
            r.append(",");
        }
        r.append(v[i].as_str());
        assert(r@ =~= prefix@ + comma_joined(strs_view(v@).take(i + 1)));
        i += 1;
    }
    assert(strs_view(v@).take(v.len() as int) =~= strs_view(v@));
    r
}

/// The lookup of users by identifier: the identifiers joined by commas.
pub fn users_by_ids_url(ids: &Vec<String>) -> (r: String)
    ensures
        r@ == "https://api.twitter.com/2/users?ids="@ + comma_joined(strs_view(ids@)),
{
    prefixed_list("https://api.twitter.com/2/users?ids=", ids)
}

/// The lookup of users by username: the usernames joined by commas.
pub fn users_by_usernames_url(names: &Vec<String>) -> (r: String)
    ensures
        r@ == "https://api.twitter.com/2/users/by?usernames="@ + comma_joined(strs_view(names@)),
{
    prefixed_list("https://api.twitter.com/2/users/by?usernames=", names)
}

/// The query of a page of liked posts: media keys expanded, media URLs,
/// creation time and author of each post, at most fifty posts.
pub open spec fn likes_query() -> Seq<(Seq<char>, Seq<char>)> {
    seq![
        ("expansions"@, "attachments.media_keys"@),
        ("media.fields"@, "url"@),
        ("tweet.fields"@, "created_at,author_id"@),
        ("max_results"@, "50"@),
    ]
}

/// The page of posts that the user `user_id` liked.
pub fn likes_url(user_id: &str) -> (r: String)
    ensures
        r@ == "https://api.twitter.com/2/users/"@ + user_id@ + "/liked_tweets"@ + seq!['?']
            + query_text(likes_query()),
{
    let mut base = String::from_str("https://api.twitter.com/2/users/");
    base.append(user_id);
    base.append("/liked_tweets");
    let mut b = UrlBuilder::new(base.as_str());
    b.param("expansions", "attachments.media_keys");
    b.param("media.fields", "url");
    b.param("tweet.fields", "created_at,author_id");
    b.param("max_results", "50");
    assert(b@.params =~= likes_query());
    b.get_url()
}

/// Whether an HTTP status says that the credentials were rejected (401),
/// which no later retry can mend.
pub fn auth_rejected(status: u16) -> (r: bool)
    ensures
        r == (status == 401),
{
    status == 401
}

/// A post whose author the cache does not hold contributes no candidate.
pub proof fn lemma_unresolved_author_skipped(cache: Seq<User>, media: Seq<Media>, t: Tweet)
    requires
        lookup(cache, t.author_id@) is None,
    ensures
        post_candidates(cache, media, t) == Seq::<(Seq<char>, Seq<char>)>::empty(),
{
}

/// A post whose author resolves and whose one media key names no record
/// contributes no candidate, and is otherwise handled as any other post.
pub proof fn lemma_missing_media_skipped(cache: Seq<User>, media: Seq<Media>, t: Tweet)
    requires
        lookup(cache, t.author_id@) is Some,
        t.attachments is Some,
        t.attachments->0.media_keys@.len() == 1,
        media_lookup(media, t.attachments->0.media_keys@[0]@) is None,
    ensures
        post_candidates(cache, media, t) == Seq::<(Seq<char>, Seq<char>)>::empty(),
{
    let keys = t.attachments->0.media_keys@;
    assert(keys.drop_last() =~= Seq::<String>::empty());
    assert(resolve_media(keys.drop_last(), media) == Some(Seq::<Media>::empty()));
}

/// A page contributes the candidates of its posts, post after post: a post
/// that contributes none leaves the page's candidates as they were without it.
pub proof fn lemma_skipped_post_absent(
    cache: Seq<User>,
    media: Seq<Media>,
    posts: Seq<Tweet>,
    t: Tweet,
)
    requires
        post_candidates(cache, media, t) == Seq::<(Seq<char>, Seq<char>)>::empty(),
    ensures
        posts_candidates(cache, media, posts.push(t)) == posts_candidates(cache, media, posts),
{
    assert(posts.push(t).drop_last() =~= posts);
    assert(posts_candidates(cache, media, posts) + Seq::<(Seq<char>, Seq<char>)>::empty()
        =~= posts_candidates(cache, media, posts));
}

/// Pushing a user keeps every identifier that was found.
proof fn lemma_lookup_push(us: Seq<User>, u: User, id: Seq<char>)
    requires
        lookup(us, id) is Some,
    ensures
        lookup(us.push(u), id) == lookup(us, id),
    decreases us.len(),
{
    if us[0].id@ != id {
        assert(us.push(u).drop_first() =~= us.drop_first().push(u));
        lemma_lookup_push(us.drop_first(), u, id);
    }
}

/// Pushing a user whose identifier is new makes it found.
proof fn lemma_lookup_push_new(us: Seq<User>, u: User)
    requires
        lookup(us, u.id@) is None,
    ensures
        lookup(us.push(u), u.id@) == Some(u),
    decreases us.len(),
{
    if us.len() > 0 {
        assert(us.push(u).drop_first() =~= us.drop_first().push(u));
        lemma_lookup_push_new(us.drop_first(), u);
    } else {
        assert(us.push(u)[0] == u);
    }
}

/// Once a list of users is taken in, the cache finds each of them.
proof fn lemma_absorbed_finds(cache: Seq<User>, us: Seq<User>, k: int)
    requires
        0 <= k < us.len(),
    ensures
        lookup(absorbed(cache, us), us[k].id@) is Some,
    decreases us.len(),
{
    let prev = absorbed(cache, us.drop_last());
    if k == us.len() - 1 {
        if lookup(prev, us.last().id@) is None {
            lemma_lookup_push_new(prev, us.last());
        }
    } else {
        assert(us.drop_last()[k] == us[k]);
        lemma_absorbed_finds(cache, us.drop_last(), k);
        if lookup(prev, us.last().id@) is None {
            lemma_lookup_push(prev, us.last(), us[k].id@);
        }
    }
}

/// Taking in users that the cache already finds changes nothing.
proof fn lemma_absorb_known(cache: Seq<User>, us: Seq<User>)
    requires
        forall|k: int| 0 <= k < us.len() ==> lookup(cache, (#[trigger] us[k]).id@) is Some,
    ensures
        absorbed(cache, us) == cache,
    decreases us.len(),
{
    if us.len() > 0 {
        assert forall|k: int| 0 <= k < us.drop_last().len() implies lookup(
            cache,
            (#[trigger] us.drop_last()[k]).id@,
        ) is Some by {
            assert(us.drop_last()[k] == us[k]);
        };
        lemma_absorb_known(cache, us.drop_last());
        assert(lookup(cache, us[us.len() - 1].id@) is Some);
    }
}

/// Running a poll twice on the same page and the same lookup answer yields
/// the same candidates: the second pass finds every author already cached,
/// so its cache, and with it its join, is the first pass's.
pub proof fn lemma_rerun_same_candidates(cache: Seq<User>, users: Seq<User>, resp: TweetResp)
    ensures
        absorbed(absorbed(cache, users), users) == absorbed(cache, users),
        page_candidates(absorbed(absorbed(cache, users), users), resp) == page_candidates(
            absorbed(cache, users),
            resp,
        ),
{
    let once = absorbed(cache, users);
    assert forall|k: int| 0 <= k < users.len() implies lookup(once, (#[trigger] users[k]).id@) is Some by {
        lemma_absorbed_finds(cache, users, k);
    };
    lemma_absorb_known(once, users);
}

/// No two posts share an identifier.
pub open spec fn ids_distinct(posts: Seq<Tweet>) -> bool {
    forall|a: int, b: int| 0 <= a < b < posts.len() ==> posts[a].id@ != posts[b].id@
}

/// The posts' identifiers and dates, and their cached authors' usernames,
/// hold no dot.
pub open spec fn dot_free_fields(cache: Seq<User>, posts: Seq<Tweet>) -> bool {
    forall|p: int|
        0 <= p < posts.len() ==> dot_free((#[trigger] posts[p]).id@) && dot_free(
            posts[p].created_at@.take(10),
        ) && (lookup(cache, posts[p].author_id@) matches Some(a) ==> dot_free(a.username@))
}

/// A filename made of the identifier of one of the posts, with dates and
/// usernames that hold no dot.
pub open spec fn named_after_some_post(f: Seq<char>, posts: Seq<Tweet>) -> bool {
    exists|p: int, d: Seq<char>, n: Seq<char>, u: Seq<char>, i: nat, e: Seq<char>|
        0 <= p < posts.len() && dot_free(d) && dot_free(u) && f == #[trigger] filename(
            d,
            n,
            u,
            posts[p].id@,
            i,
            e,
        )
}

/// The candidates of a page whose posts have distinct identifiers have
/// pairwise distinct filenames (where identifiers, dates and usernames hold
/// no dot), each named after one of the page's posts.
pub proof fn lemma_page_filenames_distinct(cache: Seq<User>, media: Seq<Media>, posts: Seq<Tweet>)
    requires
        ids_distinct(posts),
        dot_free_fields(cache, posts),
    ensures
        forall|j: int, k: int|
            0 <= j < k < posts_candidates(cache, media, posts).len() ==> (
            #[trigger] posts_candidates(cache, media, posts)[j]).0 != (
            #[trigger] posts_candidates(cache, media, posts)[k]).0,
        forall|j: int|
            0 <= j < posts_candidates(cache, media, posts).len() ==> named_after_some_post(
                (#[trigger] posts_candidates(cache, media, posts)[j]).0,
                posts,
            ),
    decreases posts.len(),
{
    if posts.len() > 0 {
        let q = posts.drop_last();
        let t = posts.last();
        let last = posts.len() - 1;
        assert(t == posts[last]);
        assert forall|p: int| 0 <= p < q.len() implies #[trigger] q[p] == posts[p] by {};
        assert(ids_distinct(q)) by {
            assert forall|a: int, b: int| 0 <= a < b < q.len() implies q[a].id@ != q[b].id@ by {
                assert(q[a] == posts[a]);
                assert(q[b] == posts[b]);
            };
        };
        assert(dot_free_fields(cache, q)) by {
            assert forall|p: int| 0 <= p < q.len() implies dot_free((#[trigger] q[p]).id@)
                && dot_free(q[p].created_at@.take(10)) && (lookup(cache, q[p].author_id@) matches Some(
                a,
            ) ==> dot_free(a.username@)) by {
                assert(q[p] == posts[p]);
            };
        };
        lemma_page_filenames_distinct(cache, media, q);
        let prev = posts_candidates(cache, media, q);
        let mine = post_candidates(cache, media, t);
        let pc = posts_candidates(cache, media, posts);
        assert(pc == prev + mine);
        let l = prev.len() as int;
        if mine.len() > 0 {
            let a = lookup(cache, t.author_id@)->0;
            let ms = resolve_media(t.attachments->0.media_keys@, media)->0;
            let date = t.created_at@.take(10);
            assert(mine == candidates_of(t.created_at@, a, t.id@, ms));
            assert(dot_free(t.id@) && dot_free(date) && dot_free(a.username@));
            lemma_post_filenames_distinct(t.created_at@, a, t.id@, ms);
            lemma_candidates_named_after_post(t.created_at@, a, t.id@, ms);
            assert forall|j: int, k: int| 0 <= j < k < pc.len() implies (#[trigger] pc[j]).0 != (
            #[trigger] pc[k]).0 by {
                if k < l {
                    assert(pc[j] == prev[j]);
                    assert(pc[k] == prev[k]);
                } else if j >= l {
                    assert(pc[j] == mine[j - l]);
                    assert(pc[k] == mine[k - l]);
                } else {
                    assert(pc[j] == prev[j]);
                    assert(pc[k] == mine[k - l]);
                    assert(named_after_some_post(prev[j].0, q));
                    let (p, d, n, u, i, e) = choose|
                        p: int,
                        d: Seq<char>,
                        n: Seq<char>,
                        u: Seq<char>,
                        i: nat,
                        e: Seq<char>,
                    |
                        0 <= p < q.len() && dot_free(d) && dot_free(u) && prev[j].0 == filename(
                            d,
                            n,
                            u,
                            q[p].id@,
                            i,
                            e,
                        );
                    let (i2, e2) = choose|i2: nat, e2: Seq<char>|
                        (#[trigger] mine[k - l]).0 == filename(
                            date,
                            a.name@,
                            a.username@,
                            t.id@,
                            i2,
                            e2,
                        );
                    assert(q[p] == posts[p]);
                    assert(posts[p].id@ != posts[last].id@);
                    lemma_filenames_distinct(
                        d,
                        n,
                        u,
                        q[p].id@,
                        i,
                        e,
                        date,
                        a.name@,
                        a.username@,
                        t.id@,
                        i2,
                        e2,
                    );
                }
            };
            assert forall|j: int| 0 <= j < pc.len() implies named_after_some_post(
                (#[trigger] posts_candidates(cache, media, posts)[j]).0,
                posts,
            ) by {
                if j < l {
                    assert(pc[j] == prev[j]);
                    assert(named_after_some_post(prev[j].0, q));
                    let (p, d, n, u, i, e) = choose|
                        p: int,
                        d: Seq<char>,
                        n: Seq<char>,
                        u: Seq<char>,
                        i: nat,
                        e: Seq<char>,
                    |
                        0 <= p < q.len() && dot_free(d) && dot_free(u) && prev[j].0 == filename(
                            d,
                            n,
                            u,
                            q[p].id@,
                            i,
                            e,
                        );
                    assert(q[p] == posts[p]);
                    assert(pc[j].0 == filename(d, n, u, posts[p].id@, i, e));
                } else {
                    assert(pc[j] == mine[j - l]);
                    let (i2, e2) = choose|i2: nat, e2: Seq<char>|
                        (#[trigger] mine[j - l]).0 == filename(
                            date,
                            a.name@,
                            a.username@,
                            t.id@,
                            i2,
                            e2,
                        );
                    assert(pc[j].0 == filename(date, a.name@, a.username@, posts[last].id@, i2, e2));
                }
            };
        } else {
            assert(pc =~= prev);
            assert forall|j: int| 0 <= j < pc.len() implies named_after_some_post(
                (#[trigger] posts_candidates(cache, media, posts)[j]).0,
                posts,
            ) by {
                assert(named_after_some_post(prev[j].0, q));
                let (p, d, n, u, i, e) = choose|
                    p: int,
                    d: Seq<char>,
                    n: Seq<char>,
                    u: Seq<char>,
                    i: nat,
                    e: Seq<char>,
                |
                    0 <= p < q.len() && dot_free(d) && dot_free(u) && prev[j].0 == filename(
                        d,
                        n,
                        u,
                        q[p].id@,
                        i,
                        e,
                    );
                assert(q[p] == posts[p]);
                assert(pc[j].0 == filename(d, n, u, posts[p].id@, i, e));
            };
        }
    }
}

} // verus!
