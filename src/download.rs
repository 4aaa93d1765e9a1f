use vstd::prelude::*;
use crate::downloader::{contains_str, strs_view};
use crate::filename::pairs_view;

verus! {

/// The candidates whose filename is not among `present`, in order.
pub open spec fn pending_in(
    cands: Seq<(Seq<char>, Seq<char>)>,
    present: Set<Seq<char>>,
) -> Seq<(Seq<char>, Seq<char>)>
    decreases cands.len(),
{
    if cands.len() == 0 {
        Seq::empty()
    } else {
        let prev = pending_in(cands.drop_last(), present);
        if present.contains(cands.last().0) {
            prev
        } else {
            prev.push(cands.last())
        }
    }
}

/// The filenames of a sequence of candidates.
pub open spec fn names_of(cands: Seq<(Seq<char>, Seq<char>)>) -> Set<Seq<char>> {
    cands.map_values(|c: (Seq<char>, Seq<char>)| c.0).to_set()
}

/// The candidates still to download: those whose filename is not among the
/// files already stored.
pub fn pending_downloads(cands: &Vec<(String, String)>, present: &Vec<String>) -> (r: Vec<
    (String, String),
>)
    ensures
        pairs_view(r@) == pending_in(pairs_view(cands@), strs_view(present@).to_set()),
{
    let ghost ps = strs_view(present@).to_set();
    let mut r: Vec<(String, String)> = Vec::new();
    let mut i: usize = 0;
    while i < cands.len()
        invariant
            i <= cands.len(),
            ps == strs_view(present@).to_set(),
            pairs_view(r@) == pending_in(pairs_view(cands@).take(i as int), ps),
        decreases cands.len() - i,
    {
        let ghost before = pairs_view(r@);
        proof {
            let t = pairs_view(cands@).take(i + 1);
            assert(t.drop_last() =~= pairs_view(cands@).take(i as int));
            assert(t.last() == pairs_view(cands@)[i as int]);
        }
        let c = &cands[i];
        if !contains_str(present, &c.0) {
            r.push((c.0.clone(), c.1.clone()));
            assert(pairs_view(r@) =~= before.push(pairs_view(cands@)[i as int]));
        }
        i += 1;
    }
    assert(pairs_view(cands@).take(cands.len() as int) =~= pairs_view(cands@));
    r
}

/// A candidate whose filename is not present stays pending.
proof fn lemma_absent_stays_pending(
    cands: Seq<(Seq<char>, Seq<char>)>,
    present: Set<Seq<char>>,
    k: int,
)
    requires
        0 <= k < cands.len(),
        !present.contains(cands[k].0),
    ensures
        pending_in(cands, present).contains(cands[k]),
    decreases cands.len(),
{
    let prev = pending_in(cands.drop_last(), present);
    if k == cands.len() - 1 {
        assert(pending_in(cands, present).last() == cands[k]);
    } else {
        assert(cands.drop_last()[k] == cands[k]);
        lemma_absent_stays_pending(cands.drop_last(), present, k);
        let j = choose|j: int| 0 <= j < prev.len() && prev[j] == cands[k];
        if !present.contains(cands.last().0) {
            assert(prev.push(cands.last())[j] == cands[k]);
        }
    }
}

/// Nothing is pending once every filename is present.
proof fn lemma_all_present(cands: Seq<(Seq<char>, Seq<char>)>, present: Set<Seq<char>>)
    requires
        forall|k: int| 0 <= k < cands.len() ==> present.contains(#[trigger] cands[k].0),
    ensures
        pending_in(cands, present) == Seq::<(Seq<char>, Seq<char>)>::empty(),
    decreases cands.len(),
{
    if cands.len() > 0 {
        assert forall|k: int| 0 <= k < cands.drop_last().len() implies present.contains(
            #[trigger] cands.drop_last()[k].0,
        ) by {
            assert(cands.drop_last()[k] == cands[k]);
        };
        lemma_all_present(cands.drop_last(), present);
        assert(present.contains(cands[cands.len() - 1].0));
    }
}

/// A second download pass, after the first stored every file it was given,
/// has nothing left to download.
pub proof fn lemma_second_pass_downloads_nothing(
    cands: Seq<(Seq<char>, Seq<char>)>,
    present: Set<Seq<char>>,
)
    ensures
        pending_in(cands, present.union(names_of(pending_in(cands, present))))
            == Seq::<(Seq<char>, Seq<char>)>::empty(),
{
    let first = pending_in(cands, present);
    let after = present.union(names_of(first));
    assert forall|k: int| 0 <= k < cands.len() implies after.contains(#[trigger] cands[k].0) by {
        if !present.contains(cands[k].0) {
            lemma_absent_stays_pending(cands, present, k);
            let j = choose|j: int| 0 <= j < first.len() && first[j] == cands[k];
            let ns = first.map_values(|c: (Seq<char>, Seq<char>)| c.0);
            assert(ns[j] == cands[k].0);
            assert(ns.contains(cands[k].0));
        }
    };
    lemma_all_present(cands, after);
}

} // verus!
