//! Small general lemmas about sequences used across the crate.

use vstd::prelude::*;

verus! {

/// Filtering after a push keeps the element exactly when the predicate
/// accepts it.
pub proof fn lemma_filter_push<A>(s: Seq<A>, x: A, pred: spec_fn(A) -> bool)
    ensures
        s.push(x).filter(pred) == if pred(x) {
            s.filter(pred).push(x)
        } else {
            s.filter(pred)
        },
{
    reveal(Seq::filter);
    let sp = s.push(x);
    assert(sp.drop_last() =~= s);
    assert(sp.last() == x);
}

/// Membership in a filtered sequence means membership in the original
/// with the predicate holding.
pub proof fn lemma_filter_elem<A>(s: Seq<A>, pred: spec_fn(A) -> bool, x: A)
    requires
        s.filter(pred).contains(x),
    ensures
        s.contains(x),
        pred(x),
    decreases s.len(),
{
    reveal(Seq::filter);
    if s.len() > 0 {
        let d = s.drop_last();
        if pred(s.last()) && x == s.last() {
            assert(s[s.len() - 1] == x);
        } else {
            let f = s.filter(pred);
            let i = choose|i: int| 0 <= i < f.len() && f[i] == x;
            if pred(s.last()) {
                if i < f.len() - 1 {
                    assert(d.filter(pred)[i] == x);
                }
            }
            assert(d.filter(pred).contains(x));
            lemma_filter_elem(d, pred, x);
            let j = choose|j: int| 0 <= j < d.len() && d[j] == x;
            assert(s[j] == x);
        }
    }
}

/// `s` with every occurrence of `id` removed.
pub open spec fn without_id(s: Seq<Seq<char>>, id: Seq<char>) -> Seq<Seq<char>> {
    s.filter(|x: Seq<char>| x != id)
}

/// How `without_id` evolves under a push.
pub proof fn lemma_without_id_push(s: Seq<Seq<char>>, x: Seq<char>, id: Seq<char>)
    ensures
        without_id(s.push(x), id) == if x == id {
            without_id(s, id)
        } else {
            without_id(s, id).push(x)
        },
{
    reveal(Seq::filter);
    let sp = s.push(x);
    assert(sp.drop_last() =~= s);
    assert(sp.last() == x);
}

/// `without_id` removes what it promises to.
pub proof fn lemma_without_id_excludes(s: Seq<Seq<char>>, id: Seq<char>)
    ensures
        !without_id(s, id).contains(id),
    decreases s.len(),
{
    reveal(Seq::filter);
    if s.len() > 0 {
        lemma_without_id_excludes(s.drop_last(), id);
        let w = without_id(s, id);
        if w.contains(id) {
            let i = choose|i: int| 0 <= i < w.len() && w[i] == id;
            if s.last() != id {
                if i < w.len() - 1 {
                    assert(without_id(s.drop_last(), id)[i] == id);
                }
            }
        }
    }
}

} // verus!
