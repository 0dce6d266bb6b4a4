//! Stable sorting by a string key, in the order of `str`'s `Ord`.

use vstd::prelude::*;

use crate::text::{lemma_seq_lt_irreflexive, lemma_seq_lt_transitive, seq_lt, str_lt};

verus! {

broadcast use vstd::seq_lib::group_to_multiset_ensures;

/// Values sorted by a string key.
pub trait SortKey {
    /// The key of a value.
    spec fn sort_key(&self) -> Seq<char>;

    /// The key of a value, as a string slice.
    fn key_str(&self) -> (r: &str)
        ensures
            r@ == self.sort_key(),
    ;
}

/// No element of `s` has a key below that of an earlier element.
pub open spec fn sorted_by_key<T: SortKey>(s: Seq<T>) -> bool {
    forall|i: int, j: int| 0 <= i < j < s.len() ==> !seq_lt(#[trigger] s[j].sort_key(), #[trigger] s[i].sort_key())
}

/// The position at which a value with key `k` goes into `s`: before the first
/// element whose key is above `k`, after all others before it.
pub open spec fn insert_pos<A>(s: Seq<A>, key: spec_fn(A) -> Seq<char>, k: Seq<char>) -> int
    decreases s.len(),
{
    if s.len() == 0 {
        0
    } else if seq_lt(k, key(s[0])) {
        0
    } else {
        1 + insert_pos(s.drop_first(), key, k)
    }
}

/// The stable sort of `s` by `key`: each element in turn goes in after every
/// element placed before it whose key is not above its own.
pub open spec fn stable_sorted<A>(s: Seq<A>, key: spec_fn(A) -> Seq<char>) -> Seq<A>
    decreases s.len(),
{
    if s.len() == 0 {
        Seq::empty()
    } else {
        let prev = stable_sorted(s.drop_last(), key);
        prev.insert(insert_pos(prev, key, key(s.last())), s.last())
    }
}

/// The key function of a `SortKey` type.
pub open spec fn key_of<T: SortKey>() -> spec_fn(T) -> Seq<char> {
    |x: T| x.sort_key()
}

/// The first position whose key is above `k`, where none before it is, is the
/// insertion position.
proof fn lemma_insert_pos<A>(s: Seq<A>, key: spec_fn(A) -> Seq<char>, k: Seq<char>, p: int)
    requires
        0 <= p <= s.len(),
        forall|q: int| 0 <= q < p ==> !seq_lt(k, #[trigger] key(s[q])),
        p < s.len() ==> seq_lt(k, key(s[p])),
    ensures
        insert_pos(s, key, k) == p,
    decreases p,
{
    if p > 0 {
        assert(!seq_lt(k, key(s[0])));
        assert forall|q: int| 0 <= q < p - 1 implies !seq_lt(k, #[trigger] key(s.drop_first()[q])) by {
            assert(s.drop_first()[q] == s[q + 1]);
        }
        if p < s.len() {
            assert(s.drop_first()[p - 1] == s[p]);
        }
        lemma_insert_pos(s.drop_first(), key, k, p - 1);
    }
}

/// Sorts values by key, keeping values with equal keys in their order
/// (what `sort_by` with a comparison of the keys does).
pub fn sort_by_key<T: SortKey>(v: Vec<T>) -> (r: Vec<T>)
    ensures
        r@ == stable_sorted(v@, key_of::<T>()),
        sorted_by_key(r@),
        r@.to_multiset() == v@.to_multiset(),
{
    let ghost vs = v@;
    let mut r: Vec<T> = Vec::new();
    for x in it: v
        invariant
            it.seq() == vs,
            r@ == stable_sorted(vs.take(it.index() as int), key_of::<T>()),
            sorted_by_key(r@),
            r@.to_multiset() == vs.take(it.index() as int).to_multiset(),
    {
        let ghost i = it.index() as int;
        assert(x == vs[i]);
        let mut p: usize = 0;
        while p < r.len()
            invariant
                p <= r@.len(),
                forall|q: int| 0 <= q < p ==> !seq_lt(x.sort_key(), #[trigger] r@[q].sort_key()),
            ensures
                p <= r@.len(),
                forall|q: int| 0 <= q < p ==> !seq_lt(x.sort_key(), #[trigger] r@[q].sort_key()),
                p < r@.len() ==> seq_lt(x.sort_key(), r@[p as int].sort_key()),
            decreases r@.len() - p,
        {
            if str_lt(x.key_str(), r[p].key_str()) {
                break;
            }
            p = p + 1;
        }
        let ghost before = r@;
        let ghost xv = x;
        r.insert(p, x);
        proof {
            let after = r@;
            assert(after == before.insert(p as int, xv));
            assert forall|a: int, b: int| 0 <= a < b < after.len() implies
                !seq_lt(#[trigger] after[b].sort_key(), #[trigger] after[a].sort_key()) by {
                if b < p {
                    assert(after[a] == before[a] && after[b] == before[b]);
                } else if b == p {
                    assert(after[b] == xv && after[a] == before[a]);
                } else if a == p {
                    assert(after[a] == xv && after[b] == before[b - 1]);
                    if seq_lt(after[b].sort_key(), xv.sort_key()) {
                        if b - 1 > p {
                            assert(!seq_lt(before[b - 1].sort_key(), before[p as int].sort_key()));
                        }
                        lemma_seq_lt_transitive(after[b].sort_key(), xv.sort_key(), before[p as int].sort_key());
                        if b - 1 == p {
                            lemma_seq_lt_irreflexive(before[p as int].sort_key());
                        }
                    }
                } else if a < p {
                    assert(after[a] == before[a] && after[b] == before[b - 1]);
                } else {
                    assert(after[a] == before[a - 1] && after[b] == before[b - 1]);
                }
            }
            assert(vs.take(i + 1) =~= vs.take(i).push(xv));
            assert(vs.take(i + 1).drop_last() =~= vs.take(i));
            lemma_insert_pos(before, key_of::<T>(), xv.sort_key(), p as int);
        }
    }
    assert(vs.take(vs.len() as int) =~= vs);
    r
}

/// Sequences with the same elements keep having the same elements when a
/// function is applied to each.
pub proof fn lemma_to_multiset_map_values<A, B>(s1: Seq<A>, s2: Seq<A>, f: spec_fn(A) -> B)
    requires
        s1.to_multiset() == s2.to_multiset(),
    ensures
        s1.map_values(f).to_multiset() == s2.map_values(f).to_multiset(),
    decreases s1.len(),
{
    broadcast use vstd::multiset::group_multiset_axioms;
    if s1.len() == 0 {
        assert(s2.to_multiset().len() == 0);
        assert(s2.len() == 0);
        assert(s1.map_values(f) =~= s2.map_values(f));
    } else {
        let x = s1.last();
        let r1 = s1.drop_last();
        assert(s1 =~= r1.push(x));
        assert(s1.to_multiset().count(x) > 0);
        assert(s2.contains(x));
        let j = choose|j: int| 0 <= j < s2.len() && s2[j] == x;
        let r2 = s2.remove(j);
        assert(r1.to_multiset() =~= s1.to_multiset().remove(x));
        assert(r2.to_multiset() =~= s2.to_multiset().remove(x));
        lemma_to_multiset_map_values(r1, r2, f);
        assert(s1.map_values(f) =~= r1.map_values(f).push(f(x)));
        let m2 = s2.map_values(f);
        assert(r2.map_values(f) =~= m2.remove(j));
        assert(m2[j] == f(x));
        assert(m2.remove(j).to_multiset() =~= m2.to_multiset().remove(f(x)));
        assert(m2.to_multiset().count(f(x)) > 0);
        assert(m2.to_multiset() =~= m2.to_multiset().remove(f(x)).insert(f(x)));
    }
}

/// The insertion position is the same after mapping, where the keys are kept.
proof fn lemma_insert_pos_map<A, B>(
    s: Seq<A>,
    ka: spec_fn(A) -> Seq<char>,
    f: spec_fn(A) -> B,
    kb: spec_fn(B) -> Seq<char>,
    k: Seq<char>,
)
    requires
        forall|x: A| #[trigger] kb(f(x)) == ka(x),
    ensures
        insert_pos(s.map_values(f), kb, k) == insert_pos(s, ka, k),
    decreases s.len(),
{
    if s.len() > 0 {
        assert(s.map_values(f)[0] == f(s[0]));
        assert(s.map_values(f).drop_first() =~= s.drop_first().map_values(f));
        lemma_insert_pos_map(s.drop_first(), ka, f, kb, k);
    }
}

/// Sorting stably and then mapping each element gives what mapping and then
/// sorting gives, where the mapping keeps the keys.
pub proof fn lemma_stable_sorted_map<A, B>(
    s: Seq<A>,
    ka: spec_fn(A) -> Seq<char>,
    f: spec_fn(A) -> B,
    kb: spec_fn(B) -> Seq<char>,
)
    requires
        forall|x: A| #[trigger] kb(f(x)) == ka(x),
    ensures
        stable_sorted(s, ka).map_values(f) == stable_sorted(s.map_values(f), kb),
    decreases s.len(),
{
    if s.len() > 0 {
        let prev = stable_sorted(s.drop_last(), ka);
        lemma_stable_sorted_map(s.drop_last(), ka, f, kb);
        assert(s.map_values(f).drop_last() =~= s.drop_last().map_values(f));
        assert(s.map_values(f).last() == f(s.last()));
        lemma_insert_pos_map(prev, ka, f, kb, ka(s.last()));
        assert(kb(f(s.last())) == ka(s.last()));
        let p = insert_pos(prev, ka, ka(s.last()));
        lemma_insert_pos_range(prev, ka, ka(s.last()));
        assert(prev.insert(p, s.last()).map_values(f) =~= prev.map_values(f).insert(p, f(s.last())));
    }
}

/// The insertion position lies within the sequence's bounds.
proof fn lemma_insert_pos_range<A>(s: Seq<A>, key: spec_fn(A) -> Seq<char>, k: Seq<char>)
    ensures
        0 <= insert_pos(s, key, k) <= s.len(),
    decreases s.len(),
{
    if s.len() > 0 {
        lemma_insert_pos_range(s.drop_first(), key, k);
    }
}

/// Sorting stably keeps the elements: the result holds each element as often as the
/// input does.
pub proof fn lemma_stable_sorted_same_elements<A>(s: Seq<A>, key: spec_fn(A) -> Seq<char>)
    ensures
        stable_sorted(s, key).to_multiset() == s.to_multiset(),
        stable_sorted(s, key).len() == s.len(),
    decreases s.len(),
{
    broadcast use {vstd::seq_lib::to_multiset_insert, vstd::seq_lib::to_multiset_build};
    if s.len() > 0 {
        let prev = stable_sorted(s.drop_last(), key);
        lemma_stable_sorted_same_elements(s.drop_last(), key);
        lemma_insert_pos_range(prev, key, key(s.last()));
        let p = insert_pos(prev, key, key(s.last()));
        assert(s =~= s.drop_last().push(s.last()));
        assert(prev.insert(p, s.last()).to_multiset() == prev.to_multiset().insert(s.last()));
        assert(s.drop_last().push(s.last()).to_multiset() =~= s.drop_last().to_multiset().insert(s.last()));
    }
}

} // verus!
