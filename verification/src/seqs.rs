//! Facts about filtering and mapping sequences.

use vstd::prelude::*;

verus! {

/// Filtering and mapping keeps one value per element that the function maps to some
/// value.
pub proof fn lemma_filter_map_len<A, B>(s: Seq<A>, f: spec_fn(A) -> Option<B>, pred: spec_fn(A) -> bool)
    requires
        forall|x: A| #[trigger] pred(x) == f(x) is Some,
    ensures
        s.filter_map(f).len() == s.filter(pred).len(),
    decreases s.len(),
{
    reveal(Seq::filter);
    if s.len() > 0 {
        lemma_filter_map_len(s.drop_last(), f, pred);
    }
}

/// Filtering and mapping keeps the value of each element that the function maps to
/// some value.
pub proof fn lemma_filter_map_has<A, B>(s: Seq<A>, f: spec_fn(A) -> Option<B>, q: int)
    requires
        0 <= q < s.len(),
        f(s[q]) is Some,
    ensures
        s.filter_map(f).contains(f(s[q])->0),
    decreases s.len(),
{
    let rest = s.drop_last().filter_map(f);
    if q == s.len() - 1 {
        assert(s.filter_map(f) == rest + seq![f(s[q])->0]);
        assert(s.filter_map(f)[rest.len() as int] == f(s[q])->0);
    } else {
        assert(s.drop_last()[q] == s[q]);
        lemma_filter_map_has(s.drop_last(), f, q);
        let w = choose|w: int| 0 <= w < rest.len() && rest[w] == f(s[q])->0;
        match f(s.last()) {
            Some(x) => {
                assert(s.filter_map(f) == rest + seq![x]);
                assert(s.filter_map(f)[w] == rest[w]);
            },
            None => {
                assert(s.filter_map(f) == rest);
            },
        }
    }
}

/// Filtering and mapping is filtering by whether the function gives a value, then
/// taking the values.
pub proof fn lemma_filter_map_is_filter<A, B>(s: Seq<A>, f: spec_fn(A) -> Option<B>, pred: spec_fn(A) -> bool, h: spec_fn(A) -> B)
    requires
        forall|x: A| #[trigger] pred(x) == f(x) is Some,
        forall|x: A| pred(x) ==> f(x) == Some(#[trigger] h(x)),
    ensures
        s.filter_map(f) == s.filter(pred).map_values(h),
    decreases s.len(),
{
    reveal(Seq::filter);
    if s.len() > 0 {
        lemma_filter_map_is_filter(s.drop_last(), f, pred, h);
        let prev = s.drop_last().filter(pred);
        if pred(s.last()) {
            assert(prev.push(s.last()).map_values(h) =~= prev.map_values(h) + seq![h(s.last())]);
        }
    }
}

/// Filtering and mapping gives no more values than there are elements.
pub proof fn lemma_filter_map_not_longer<A, B>(s: Seq<A>, f: spec_fn(A) -> Option<B>)
    ensures
        s.filter_map(f).len() <= s.len(),
    decreases s.len(),
{
    if s.len() > 0 {
        lemma_filter_map_not_longer(s.drop_last(), f);
    }
}

} // verus!
