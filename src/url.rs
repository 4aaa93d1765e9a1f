use vstd::prelude::*;
use vstd::string::*;

verus! {

/// One `key=value` pair of a query string.
pub open spec fn param_text(p: (Seq<char>, Seq<char>)) -> Seq<char> {
    p.0 + seq!['='] + p.1
}

/// The pairs written as `k1=v1&k2=v2&...`, in the order given.
pub open spec fn query_text(ps: Seq<(Seq<char>, Seq<char>)>) -> Seq<char>
    decreases ps.len(),
{
    if ps.len() == 0 {
        Seq::empty()
    } else if ps.len() == 1 {
        param_text(ps[0])
    } else {
        query_text(ps.drop_last()) + seq!['&'] + param_text(ps.last())
    }
}

/// What a builder holds: the address before the `?` and the pairs added so far.
pub struct UrlView {
    pub host: Seq<char>,
    pub params: Seq<(Seq<char>, Seq<char>)>,
}

/// Builds a URL from a base address and query parameters.
pub struct UrlBuilder {
    host: String,
    params: Vec<(String, String)>,
}

impl View for UrlBuilder {
    type V = UrlView;

    closed spec fn view(&self) -> UrlView {
        UrlView {
            host: self.host@,
            params: self.params@.map_values(|p: (String, String)| (p.0@, p.1@)),
        }
    }
}

impl UrlBuilder {
    pub fn new(host: &str) -> (r: Self)
        ensures
            r@.host == host@,
            r@.params == Seq::<(Seq<char>, Seq<char>)>::empty(),
    {
        let r = UrlBuilder { host: String::from_str(host), params: Vec::new() };
        assert(r@.params =~= Seq::<(Seq<char>, Seq<char>)>::empty());
        r
    }

    /// Adds the pair `k=v` after those already added.
    pub fn param(&mut self, k: &str, v: &str) -> (r: &mut Self)
        ensures
            r@.host == old(self)@.host,
            r@.params == old(self)@.params.push((k@, v@)),
            *final(self) == *final(r),
    {
        let ghost before = self@.params;
        self.params.push((String::from_str(k), String::from_str(v)));
        assert(self@.params =~= before.push((k@, v@)));
        self
    }

    /// The host, a `?`, then the pairs joined by `&`.
    pub fn get_url(&self) -> (r: String)
        ensures
            r@ == self@.host + seq!['?'] + query_text(self@.params),
    {
        let mut q = String::new();
        let mut i: usize = 0;
        while i < self.params.len()
            invariant
                i <= self.params.len(),
                q@ == query_text(self@.params.take(i as int)),
            decreases self.params.len() - i,
        {
            proof {
                reveal_strlit("&");
                reveal_strlit("=");
            }
            let ghost ps = self@.params;
            if i > 0 {
                q.append("&");
            }
            let p = &self.params[i];
            q.append(p.0.as_str());
            q.append("=");
            q.append(p.1.as_str());
            proof {
                assert(ps.take(i + 1).drop_last() =~= ps.take(i as int));
                assert(ps.take(i + 1).last() == ps[i as int]);
                if i == 0 {
                    assert(ps.take(0) =~= Seq::<(Seq<char>, Seq<char>)>::empty());
                    assert(q@ =~= param_text(ps[0]));
                } else {
                    assert(q@ =~= query_text(ps.take(i as int)) + seq!['&'] + param_text(
                        ps[i as int],
                    ));
                }
            }
            i += 1;
        }
        proof {
            reveal_strlit("?");
            assert(self@.params.take(self.params.len() as int) =~= self@.params);
        }
        let mut r = self.host.clone();
        r.append("?");
        r.append(q.as_str());
        r
    }
}

} // verus!
