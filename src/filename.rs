use vstd::prelude::*;
use vstd::string::*;
use crate::model::{Media, Tweet, User};

verus! {

/// An ASCII letter or digit.
pub open spec fn is_alnum(c: char) -> bool {
    ('a' <= c && c <= 'z') || ('A' <= c && c <= 'Z') || ('0' <= c && c <= '9')
}

/// The longest suffix of `s` made of ASCII letters and digits.
pub open spec fn trailing_alnum(s: Seq<char>) -> Seq<char>
    decreases s.len(),
{
    if s.len() == 0 || !is_alnum(s.last()) {
        Seq::empty()
    } else {
        trailing_alnum(s.drop_last()).push(s.last())
    }
}

/// How one character of a display name is written in a filename.
pub open spec fn escaped_char(c: char) -> Seq<char> {
    if c == '/' {
        seq!['[', 's', 'l', 'a', 's', 'h', ']']
    } else if c == '.' {
        seq!['[', 'd', 'o', 't', ']']
    } else {
        seq![c]
    }
}

/// A display name with every `/` written `[slash]` and every `.` written `[dot]`.
pub open spec fn sanitized(s: Seq<char>) -> Seq<char>
    decreases s.len(),
{
    if s.len() == 0 {
        Seq::empty()
    } else {
        sanitized(s.drop_last()) + escaped_char(s.last())
    }
}

/// The decimal digit for `d < 10`.
pub open spec fn digit_char(d: nat) -> char {
    if d == 0 {
        '0'
    } else if d == 1 {
        '1'
    } else if d == 2 {
        '2'
    } else if d == 3 {
        '3'
    } else if d == 4 {
        '4'
    } else if d == 5 {
        '5'
    } else if d == 6 {
        '6'
    } else if d == 7 {
        '7'
    } else if d == 8 {
        '8'
    } else {
        '9'
    }
}

/// `n` in decimal, without leading zeros.
pub open spec fn decimal(n: nat) -> Seq<char>
    decreases n,
{
    if n < 10 {
        seq![digit_char(n)]
    } else {
        decimal(n / 10).push(digit_char(n % 10))
    }
}

/// `a`, a dot, then `rest`.
pub open spec fn dotted(a: Seq<char>, rest: Seq<char>) -> Seq<char> {
    a + seq!['.'] + rest
}

/// `{date}.{sanitized name}.@{username}.{post id}.{index}.{extension}`.
pub open spec fn filename(
    date: Seq<char>,
    name: Seq<char>,
    username: Seq<char>,
    post_id: Seq<char>,
    index: nat,
    ext: Seq<char>,
) -> Seq<char> {
    dotted(
        date,
        dotted(
            sanitized(name),
            dotted(seq!['@'] + username, dotted(post_id, dotted(decimal(index), ext))),
        ),
    )
}

/// The (filename, source URL) pair for the media at position `index` of a
/// post, if it has a URL ending in an extension and the timestamp holds a date.
pub open spec fn media_candidate(
    created_at: Seq<char>,
    author: User,
    post_id: Seq<char>,
    index: nat,
    m: Media,
) -> Option<(Seq<char>, Seq<char>)> {
    match m.url {
        Some(u) => if created_at.len() >= 10 && trailing_alnum(u@).len() > 0 {
            Some(
                (
                    filename(
                        created_at.take(10),
                        author.name@,
                        author.username@,
                        post_id,
                        index,
                        trailing_alnum(u@),
                    ),
                    u@,
                ),
            )
        } else {
            None
        },
        None => None,
    }
}

/// The candidates of a post's resolved media, in attachment order.
pub open spec fn candidates_of(
    created_at: Seq<char>,
    author: User,
    post_id: Seq<char>,
    ms: Seq<Media>,
) -> Seq<(Seq<char>, Seq<char>)>
    decreases ms.len(),
{
    if ms.len() == 0 {
        Seq::empty()
    } else {
        let prev = candidates_of(created_at, author, post_id, ms.drop_last());
        match media_candidate(created_at, author, post_id, (ms.len() - 1) as nat, ms.last()) {
            Some(c) => prev.push(c),
            None => prev,
        }
    }
}

/// The candidates of a post whose author and media are filled in; none otherwise.
pub open spec fn tweet_candidates(t: Tweet) -> Seq<(Seq<char>, Seq<char>)> {
    match t.author {
        Some(a) => match t.attachments {
            Some(att) => match att.medias {
                Some(ms) => candidates_of(t.created_at@, a, t.id@, ms@),
                None => Seq::empty(),
            },
            None => Seq::empty(),
        },
        None => Seq::empty(),
    }
}

/// Pairs of strings as pairs of character sequences.
pub open spec fn pairs_view(v: Seq<(String, String)>) -> Seq<(Seq<char>, Seq<char>)> {
    v.map_values(|p: (String, String)| (p.0@, p.1@))
}

/// Relies on regex's `Regex::new` and `Regex::find` with the pattern
/// `[a-zA-Z0-9]+$` (a valid pattern, so `new` succeeds): the leftmost match
/// of a non-empty run of ASCII letters and digits that ends the text, which
/// is the longest such suffix; no match when the text does not end in one.
#[verifier::external_body]
fn find_extension(url: &str) -> (r: Option<String>)
    ensures
        r is None <==> trailing_alnum(url@).len() == 0,
        r matches Some(e) ==> e@ == trailing_alnum(url@),
{
    let re = regex::Regex::new(r"[a-zA-Z0-9]+$").unwrap();
    re.find(url).map(|m| m.as_str().to_string())
}

/// The display name with `/` written `[slash]` and `.` written `[dot]`;
/// every other character is kept as it is.
pub fn sanitize_name(name: &str) -> (r: String)
    ensures
        r@ == sanitized(name@),
{
    let n = name.unicode_len();
    let mut r = String::new();
    let mut i: usize = 0;
    while i < n
        invariant
            n == name@.len(),
            i <= n,
            r@ == sanitized(name@.take(i as int)),
        decreases n - i,
    {
        proof {
            reveal_strlit("[slash]");
            reveal_strlit("[dot]");
        }
        let c = name.get_char(i);
        if c == '/' {
            r.append("[slash]");
        } else if c == '.' {
            r.append("[dot]");
        } else {
            r.append(name.substring_char(i, i + 1));
        }
        proof {
            let t = name@.take(i + 1);
            assert(t.drop_last() =~= name@.take(i as int));
            assert(t.last() == c);
            assert(r@ =~= sanitized(t));
        }
        i += 1;
    }
    proof {
        assert(name@.take(n as int) =~= name@);
    }
    r
}

/// The decimal digit `d` as a one-character string.
fn digit_str(d: usize) -> (r: &'static str)
    requires
        d < 10,
    ensures
        r@ == seq![digit_char(d as nat)],
{
    proof {
        reveal_strlit("0");
        reveal_strlit("1");
        reveal_strlit("2");
        reveal_strlit("3");
        reveal_strlit("4");
        reveal_strlit("5");
        reveal_strlit("6");
        reveal_strlit("7");
        reveal_strlit("8");
        reveal_strlit("9");
    }
    let r = match d {
        0 => "0",
        1 => "1",
        2 => "2",
        3 => "3",
        4 => "4",
        5 => "5",
        6 => "6",
        7 => "7",
        8 => "8",
        _ => "9",
    };
    assert(r@ =~= seq![digit_char(d as nat)]);
    r
}

/// `n` written in decimal.
pub fn decimal_string(n: usize) -> (r: String)
    ensures
        r@ == decimal(n as nat),
    decreases n,
{
    if n < 10 {
        String::from_str(digit_str(n))
    } else {
        let mut r = decimal_string(n / 10);
        r.append(digit_str(n % 10));
        assert(r@ =~= decimal(n as nat));
        r
    }
}

/// Composes `{date}.{sanitized name}.@{username}.{post id}.{index}.{extension}`.
pub fn compose_filename(
    date: &str,
    name: &str,
    username: &str,
    post_id: &str,
    index: usize,
    ext: &str,
) -> (r: String)
    ensures
        r@ == filename(date@, name@, username@, post_id@, index as nat, ext@),
{
    proof {
        reveal_strlit(".");
        reveal_strlit(".@");
    }
    let sname = sanitize_name(name);
    let dec = decimal_string(index);
    let mut r = String::from_str(date);
    r.append(".");
    r.append(sname.as_str());
    r.append(".@");
    r.append(username);
    r.append(".");
    r.append(post_id);
    r.append(".");
    r.append(dec.as_str());
    r.append(".");
    r.append(ext);
    assert(r@ =~= filename(date@, name@, username@, post_id@, index as nat, ext@));
    r
}

/// The candidates for a post's resolved media, in attachment order: one for
/// each media item whose URL ends in an extension, numbered by its position;
/// none when the timestamp is shorter than a date.
pub fn media_candidates(
    created_at: &String,
    author: &User,
    post_id: &String,
    medias: &Vec<Media>,
) -> (r: Vec<(String, String)>)
    ensures
        pairs_view(r@) == candidates_of(created_at@, *author, post_id@, medias@),
{
    let mut r: Vec<(String, String)> = Vec::new();
    let long_enough = created_at.as_str().unicode_len() >= 10;
    let mut i: usize = 0;
    while i < medias.len()
        invariant
            i <= medias.len(),
            long_enough == (created_at@.len() >= 10),
            pairs_view(r@) == candidates_of(
                created_at@,
                *author,
                post_id@,
                medias@.take(i as int),
            ),
        decreases medias.len() - i,
    {
        let ghost before = r@;
        let ghost t = medias@.take(i + 1);
        proof {
            assert(t.drop_last() =~= medias@.take(i as int));
            assert(t.last() == medias@[i as int]);
        }
        let m = &medias[i];
        if let Some(u) = &m.url {
            if long_enough {
                if let Some(ext) = find_extension(u.as_str()) {
                    let date = created_at.as_str().substring_char(0, 10);
                    let f = compose_filename(
                        date,
                        author.name.as_str(),
                        author.username.as_str(),
                        post_id.as_str(),
                        i,
                        ext.as_str(),
                    );
                    r.push((f, u.clone()));
                    assert(pairs_view(r@) =~= pairs_view(before).push(
                        media_candidate(created_at@, *author, post_id@, i as nat, medias@[i as int])->0,
                    ));
                }
            }
        }
        assert(pairs_view(r@) == candidates_of(created_at@, *author, post_id@, t));
        i += 1;
    }
    assert(medias@.take(medias.len() as int) =~= medias@);
    r
}

/// The (filename, source URL) pairs of a post whose author and media have
/// been filled in; none when either is missing.
pub fn get_filename_and_url(tweet: &Tweet) -> (r: Vec<(String, String)>)
    ensures
        pairs_view(r@) == tweet_candidates(*tweet),
{
    match &tweet.author {
        Some(author) => match &tweet.attachments {
            Some(att) => match &att.medias {
                Some(ms) => media_candidates(&tweet.created_at, author, &tweet.id, ms),
                None => Vec::new(),
            },
            None => Vec::new(),
        },
        None => Vec::new(),
    }
}

/// No character of `s` is a dot.
pub open spec fn dot_free(s: Seq<char>) -> bool {
    forall|k: int| 0 <= k < s.len() ==> s[k] != '.'
}

/// The positions of a post's media that carry a URL, in increasing order.
pub open spec fn url_positions(ms: Seq<Media>) -> Seq<nat>
    decreases ms.len(),
{
    if ms.len() == 0 {
        Seq::empty()
    } else {
        let prev = url_positions(ms.drop_last());
        if ms.last().url is Some {
            prev.push((ms.len() - 1) as nat)
        } else {
            prev
        }
    }
}

/// When the timestamp holds a date and every URL ends in an extension, a
/// post's media yield exactly one candidate per media item with a URL, in
/// attachment order, each named after its position.
pub proof fn lemma_one_candidate_per_media(
    created_at: Seq<char>,
    author: User,
    post_id: Seq<char>,
    ms: Seq<Media>,
)
    requires
        created_at.len() >= 10,
        forall|k: int|
            0 <= k < ms.len() && (#[trigger] ms[k]).url is Some ==> trailing_alnum(
                ms[k].url->0@,
            ).len() > 0,
    ensures
        candidates_of(created_at, author, post_id, ms).len() == url_positions(ms).len(),
        forall|j: int|
            0 <= j < url_positions(ms).len() ==> url_positions(ms)[j] < ms.len() && ms[url_positions(
                ms,
            )[j] as int].url is Some,
        forall|j: int, k: int|
            0 <= j < k < url_positions(ms).len() ==> url_positions(ms)[j] < url_positions(ms)[k],
        forall|j: int|
            0 <= j < url_positions(ms).len() ==> #[trigger] candidates_of(
                created_at,
                author,
                post_id,
                ms,
            )[j] == media_candidate(
                created_at,
                author,
                post_id,
                url_positions(ms)[j],
                ms[url_positions(ms)[j] as int],
            )->0,
    decreases ms.len(),
{
    if ms.len() > 0 {
        let d = ms.drop_last();
        assert forall|k: int|
            0 <= k < d.len() && (#[trigger] d[k]).url is Some implies trailing_alnum(
                d[k].url->0@,
            ).len() > 0 by {
            assert(d[k] == ms[k]);
        };
        lemma_one_candidate_per_media(created_at, author, post_id, d);
        let ps = url_positions(d);
        assert forall|j: int| 0 <= j < ps.len() implies d[ps[j] as int] == ms[ps[j] as int] by {};
    }
}

/// Splitting at the first dot: equal texts whose first fields hold no dot
/// have equal fields and equal rests.
proof fn lemma_split_dotted(a: Seq<char>, b: Seq<char>, c: Seq<char>, d: Seq<char>)
    requires
        dot_free(a),
        dot_free(c),
        dotted(a, b) == dotted(c, d),
    ensures
        a == c,
        b == d,
{
    let x = dotted(a, b);
    if a.len() < c.len() {
        assert(x[a.len() as int] == '.');
        assert(dotted(c, d)[a.len() as int] == c[a.len() as int]);
    } else if c.len() < a.len() {
        assert(dotted(c, d)[c.len() as int] == '.');
        assert(x[c.len() as int] == a[c.len() as int]);
    } else {
        assert(a =~= x.subrange(0, a.len() as int));
        assert(c =~= dotted(c, d).subrange(0, c.len() as int));
        assert(b =~= x.subrange(a.len() as int + 1, x.len() as int));
        assert(d =~= dotted(c, d).subrange(c.len() as int + 1, x.len() as int));
    }
}

/// A sanitized display name holds no dot.
proof fn lemma_sanitized_dot_free(s: Seq<char>)
    ensures
        dot_free(sanitized(s)),
    decreases s.len(),
{
    if s.len() > 0 {
        lemma_sanitized_dot_free(s.drop_last());
        let p = sanitized(s.drop_last());
        let e = escaped_char(s.last());
        assert forall|k: int| 0 <= k < e.len() implies e[k] != '.' by {};
        assert forall|k: int| 0 <= k < sanitized(s).len() implies sanitized(s)[k] != '.' by {
            if k >= p.len() {
                assert(sanitized(s)[k] == e[k - p.len()]);
            }
        };
    }
}

/// A decimal numeral is non-empty and holds no dot.
proof fn lemma_decimal_dot_free(n: nat)
    ensures
        dot_free(decimal(n)),
        decimal(n).len() >= 1,
    decreases n,
{
    if n >= 10 {
        lemma_decimal_dot_free(n / 10);
    }
}

/// Distinct numbers have distinct numerals.
proof fn lemma_decimal_injective(n: nat, m: nat)
    requires
        decimal(n) == decimal(m),
    ensures
        n == m,
    decreases n,
{
    if n >= 10 && m >= 10 {
        lemma_decimal_dot_free(n / 10);
        assert(decimal(n).last() == digit_char(n % 10));
        assert(decimal(m).last() == digit_char(m % 10));
        assert(decimal(n / 10) =~= decimal(n).drop_last());
        assert(decimal(m / 10) =~= decimal(m).drop_last());
        lemma_decimal_injective(n / 10, m / 10);
        assert(n % 10 == m % 10);
        assert(n == m) by (nonlinear_arith)
            requires
                n / 10 == m / 10,
                n % 10 == m % 10,
        ;
    } else if n >= 10 {
        lemma_decimal_dot_free(n / 10);
        assert(decimal(n).len() >= 2);
    } else if m >= 10 {
        lemma_decimal_dot_free(m / 10);
        assert(decimal(m).len() >= 2);
    } else {
        assert(decimal(n)[0] == digit_char(n));
        assert(decimal(m)[0] == digit_char(m));
    }
}

/// Filenames of two media that differ in post or in position differ, where
/// dates, usernames and post identifiers hold no dot: every field of the
/// filename is then delimited by the dots between them.
pub proof fn lemma_filenames_distinct(
    date1: Seq<char>,
    name1: Seq<char>,
    user1: Seq<char>,
    id1: Seq<char>,
    index1: nat,
    ext1: Seq<char>,
    date2: Seq<char>,
    name2: Seq<char>,
    user2: Seq<char>,
    id2: Seq<char>,
    index2: nat,
    ext2: Seq<char>,
)
    requires
        dot_free(date1),
        dot_free(date2),
        dot_free(user1),
        dot_free(user2),
        dot_free(id1),
        dot_free(id2),
        id1 != id2 || index1 != index2,
    ensures
        filename(date1, name1, user1, id1, index1, ext1) != filename(
            date2,
            name2,
            user2,
            id2,
            index2,
            ext2,
        ),
{
    if filename(date1, name1, user1, id1, index1, ext1) == filename(
        date2,
        name2,
        user2,
        id2,
        index2,
        ext2,
    ) {
        lemma_sanitized_dot_free(name1);
        lemma_sanitized_dot_free(name2);
        lemma_decimal_dot_free(index1);
        lemma_decimal_dot_free(index2);
        let at1 = seq!['@'] + user1;
        let at2 = seq!['@'] + user2;
        assert(dot_free(at1)) by {
            assert forall|k: int| 0 <= k < at1.len() implies at1[k] != '.' by {
                if k > 0 {
                    assert(at1[k] == user1[k - 1]);
                }
            };
        };
        assert(dot_free(at2)) by {
            assert forall|k: int| 0 <= k < at2.len() implies at2[k] != '.' by {
                if k > 0 {
                    assert(at2[k] == user2[k - 1]);
                }
            };
        };
        let r1 = dotted(sanitized(name1), dotted(at1, dotted(id1, dotted(decimal(index1), ext1))));
        let r2 = dotted(sanitized(name2), dotted(at2, dotted(id2, dotted(decimal(index2), ext2))));
        lemma_split_dotted(date1, r1, date2, r2);
        lemma_split_dotted(
            sanitized(name1),
            dotted(at1, dotted(id1, dotted(decimal(index1), ext1))),
            sanitized(name2),
            dotted(at2, dotted(id2, dotted(decimal(index2), ext2))),
        );
        lemma_split_dotted(
            at1,
            dotted(id1, dotted(decimal(index1), ext1)),
            at2,
            dotted(id2, dotted(decimal(index2), ext2)),
        );
        lemma_split_dotted(id1, dotted(decimal(index1), ext1), id2, dotted(decimal(index2), ext2));
        lemma_split_dotted(decimal(index1), ext1, decimal(index2), ext2);
        lemma_decimal_injective(index1, index2);
    }
}

/// The candidates of one post have pairwise distinct filenames, where its
/// date, its author's username and its identifier hold no dot; none of them
/// is the filename of a later position of the same post either.
pub proof fn lemma_post_filenames_distinct(
    created_at: Seq<char>,
    author: User,
    post_id: Seq<char>,
    ms: Seq<Media>,
)
    requires
        dot_free(created_at.take(10)),
        dot_free(author.username@),
        dot_free(post_id),
    ensures
        forall|j: int, k: int|
            0 <= j < k < candidates_of(created_at, author, post_id, ms).len() ==> (
            #[trigger] candidates_of(created_at, author, post_id, ms)[j]).0 != (
            #[trigger] candidates_of(created_at, author, post_id, ms)[k]).0,
        forall|j: int, i: nat, e: Seq<char>|
            0 <= j < candidates_of(created_at, author, post_id, ms).len() && i >= ms.len() ==> (
            #[trigger] candidates_of(created_at, author, post_id, ms)[j]).0 != #[trigger] filename(
                created_at.take(10),
                author.name@,
                author.username@,
                post_id,
                i,
                e,
            ),
    decreases ms.len(),
{
    if ms.len() > 0 {
        let d = ms.drop_last();
        lemma_post_filenames_distinct(created_at, author, post_id, d);
        let prev = candidates_of(created_at, author, post_id, d);
        let cs = candidates_of(created_at, author, post_id, ms);
        let n = (ms.len() - 1) as nat;
        let date = created_at.take(10);
        match media_candidate(created_at, author, post_id, n, ms.last()) {
            Some(c) => {
                let ext = trailing_alnum(ms.last().url->0@);
                assert(c.0 == filename(date, author.name@, author.username@, post_id, n, ext));
                assert(cs == prev.push(c));
                assert forall|j: int, k: int| 0 <= j < k < cs.len() implies (
                #[trigger] cs[j]).0 != (#[trigger] cs[k]).0 by {
                    if k == prev.len() {
                        assert(cs[j] == prev[j]);
                    } else {
                        assert(cs[j] == prev[j]);
                        assert(cs[k] == prev[k]);
                    }
                };
                assert forall|j: int, i: nat, e: Seq<char>|
                    0 <= j < cs.len() && i >= ms.len() implies (#[trigger] cs[j]).0
                    != #[trigger] filename(date, author.name@, author.username@, post_id, i, e) by {
                    if j == prev.len() {
                        lemma_filenames_distinct(
                            date,
                            author.name@,
                            author.username@,
                            post_id,
                            n,
                            ext,
                            date,
                            author.name@,
                            author.username@,
                            post_id,
                            i,
                            e,
                        );
                    } else {
                        assert(cs[j] == prev[j]);
                    }
                };
            },
            None => {
                assert(cs == prev);
            },
        }
    }
}

/// Every candidate of a post is named after that post: its filename is the
/// post's date, author and identifier with some position and extension.
pub proof fn lemma_candidates_named_after_post(
    created_at: Seq<char>,
    author: User,
    post_id: Seq<char>,
    ms: Seq<Media>,
)
    ensures
        forall|j: int|
            0 <= j < candidates_of(created_at, author, post_id, ms).len() ==> exists|
                i: nat,
                e: Seq<char>,
            |
                (#[trigger] candidates_of(created_at, author, post_id, ms)[j]).0 == filename(
                    created_at.take(10),
                    author.name@,
                    author.username@,
                    post_id,
                    i,
                    e,
                ),
    decreases ms.len(),
{
    if ms.len() > 0 {
        let d = ms.drop_last();
        lemma_candidates_named_after_post(created_at, author, post_id, d);
        let prev = candidates_of(created_at, author, post_id, d);
        let cs = candidates_of(created_at, author, post_id, ms);
        let n = (ms.len() - 1) as nat;
        let date = created_at.take(10);
        match media_candidate(created_at, author, post_id, n, ms.last()) {
            Some(c) => {
                let ext = trailing_alnum(ms.last().url->0@);
                assert(cs == prev.push(c));
                assert forall|j: int| 0 <= j < cs.len() implies exists|i: nat, e: Seq<char>|
                    (#[trigger] cs[j]).0 == filename(
                        date,
                        author.name@,
                        author.username@,
                        post_id,
                        i,
                        e,
                    ) by {
                    if j == prev.len() {
                        assert(cs[j].0 == filename(
                            date,
                            author.name@,
                            author.username@,
                            post_id,
                            n,
                            ext,
                        ));
                    } else {
                        assert(cs[j] == prev[j]);
                        let (i, e) = choose|i: nat, e: Seq<char>|
                            (#[trigger] prev[j]).0 == filename(
                                date,
                                author.name@,
                                author.username@,
                                post_id,
                                i,
                                e,
                            );
                        assert(cs[j].0 == filename(
                            date,
                            author.name@,
                            author.username@,
                            post_id,
                            i,
                            e,
                        ));
                    }
                };
            },
            None => {
                assert(cs == prev);
            },
        }
    }
}

} // verus!
