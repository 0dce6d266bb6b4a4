//! Indexes from a key (an author id, a tag) to the items filed under it.

use vstd::prelude::*;

use crate::text::str_eq;

verus! {

/// One key of an index: its label and the ids of the items filed under it.
#[derive(Debug)]
pub struct IndexEntry {
    /// The key (an author id, or a tag).
    pub key: String,
    /// What the key is shown as (an author's name, or the tag itself).
    pub label: String,
    /// The ids of the items filed under the key, once per filing.
    pub item_ids: Vec<u64>,
}

/// How often `x` occurs in `s`.
pub open spec fn occurrences<A>(s: Seq<A>, x: A) -> nat
    decreases s.len(),
{
    if s.len() == 0 {
        0
    } else {
        occurrences(s.drop_last(), x) + if s.last() == x { 1nat } else { 0nat }
    }
}

/// No two entries of an index have the same key.
pub open spec fn keys_distinct(idx: Seq<IndexEntry>) -> bool {
    forall|i: int, j: int| 0 <= i < j < idx.len() ==> idx[i].key@ != idx[j].key@
}

/// Whether an index has an entry for `key`.
pub open spec fn has_key(idx: Seq<IndexEntry>, key: Seq<char>) -> bool {
    exists|i: int| 0 <= i < idx.len() && idx[i].key@ == key
}

/// The position of the entry for `key`.
pub open spec fn key_pos(idx: Seq<IndexEntry>, key: Seq<char>) -> int {
    choose|i: int| 0 <= i < idx.len() && idx[i].key@ == key
}

/// The item ids filed under `key` (none where the key has no entry).
pub open spec fn ids_of(idx: Seq<IndexEntry>, key: Seq<char>) -> Seq<u64> {
    if has_key(idx, key) {
        idx[key_pos(idx, key)].item_ids@
    } else {
        Seq::empty()
    }
}

/// The label of the entry for `key`.
pub open spec fn label_of(idx: Seq<IndexEntry>, key: Seq<char>) -> Seq<char> {
    idx[key_pos(idx, key)].label@
}

/// In an index with distinct keys, the entry at `i` is the entry for its key.
pub proof fn lemma_key_pos(idx: Seq<IndexEntry>, i: int)
    requires
        keys_distinct(idx),
        0 <= i < idx.len(),
    ensures
        has_key(idx, idx[i].key@),
        key_pos(idx, idx[i].key@) == i,
{
    let k = idx[i].key@;
    assert(has_key(idx, k));
    let p = key_pos(idx, k);
    if p != i {
        if p < i {
            assert(idx[p].key@ != idx[i].key@);
        } else {
            assert(idx[i].key@ != idx[p].key@);
        }
    }
}

/// Files the item `id` under `key`, creating the entry, labelled `label`, if the
/// key has none.
pub fn index_add(idx: &mut Vec<IndexEntry>, key: String, label: String, id: u64)
    requires
        keys_distinct(old(idx)@),
    ensures
        keys_distinct(final(idx)@),
        forall|k: Seq<char>| has_key(final(idx)@, k) <==> (has_key(old(idx)@, k) || k == key@),
        ids_of(final(idx)@, key@) == ids_of(old(idx)@, key@).push(id),
        forall|k: Seq<char>| k != key@ ==> ids_of(final(idx)@, k) == ids_of(old(idx)@, k),
        forall|k: Seq<char>| has_key(old(idx)@, k) ==> label_of(final(idx)@, k) == label_of(old(idx)@, k),
        !has_key(old(idx)@, key@) ==> label_of(final(idx)@, key@) == label@,
{
    let mut i: usize = 0;
    while i < idx.len()
        invariant
            idx@ == old(idx)@,
            keys_distinct(old(idx)@),
            i <= idx@.len(),
            forall|j: int| 0 <= j < i ==> idx@[j].key@ != key@,
        decreases idx@.len() - i,
    {
        if str_eq(idx[i].key.as_str(), key.as_str()) {
            let ghost old_idx = idx@;
            proof {
                lemma_key_pos(old_idx, i as int);
            }
            let mut e = idx.remove(i);
            e.item_ids.push(id);
            idx.insert(i, e);
            proof {
                let new_idx = idx@;
                assert(new_idx.len() == old_idx.len());
                assert(forall|j: int| 0 <= j < new_idx.len() && j != i ==> new_idx[j] == old_idx[j]);
                assert(forall|j: int| 0 <= j < new_idx.len() ==> new_idx[j].key@ == old_idx[j].key@);
                assert(keys_distinct(new_idx));
                lemma_key_pos(new_idx, i as int);
                assert forall|k: Seq<char>| has_key(new_idx, k) <==> (has_key(old_idx, k) || k == key@) by {
                    if has_key(new_idx, k) {
                        let p = choose|p: int| 0 <= p < new_idx.len() && new_idx[p].key@ == k;
                        assert(old_idx[p].key@ == k);
                    }
                    if has_key(old_idx, k) {
                        let p = choose|p: int| 0 <= p < old_idx.len() && old_idx[p].key@ == k;
                        assert(new_idx[p].key@ == k);
                    }
                }
                assert forall|k: Seq<char>| has_key(old_idx, k) implies
                    key_pos(new_idx, k) == key_pos(old_idx, k) by {
                    let p = key_pos(old_idx, k);
                    lemma_key_pos(old_idx, p);
                    lemma_key_pos(new_idx, p);
                }
                assert(new_idx[i as int].item_ids@ =~= old_idx[i as int].item_ids@.push(id));
            }
            return;
        }
        i = i + 1;
    }
    let ghost old_idx = idx@;
    let mut ids: Vec<u64> = Vec::new();
    ids.push(id);
    idx.push(IndexEntry { key, label, item_ids: ids });
    proof {
        let new_idx = idx@;
        let n = old_idx.len() as int;
        assert(!has_key(old_idx, key@));
        assert(forall|j: int| 0 <= j < n ==> new_idx[j] == old_idx[j]);
        assert(new_idx[n].key@ == key@);
        assert(keys_distinct(new_idx));
        lemma_key_pos(new_idx, n);
        assert forall|k: Seq<char>| has_key(new_idx, k) <==> (has_key(old_idx, k) || k == key@) by {
            if has_key(new_idx, k) {
                let p = choose|p: int| 0 <= p < new_idx.len() && new_idx[p].key@ == k;
                if p < n {
                    assert(old_idx[p].key@ == k);
                }
            }
            if has_key(old_idx, k) {
                let p = choose|p: int| 0 <= p < old_idx.len() && old_idx[p].key@ == k;
                assert(new_idx[p].key@ == k);
            }
        }
        assert forall|k: Seq<char>| has_key(old_idx, k) implies
            key_pos(new_idx, k) == key_pos(old_idx, k) by {
            let p = key_pos(old_idx, k);
            lemma_key_pos(old_idx, p);
            lemma_key_pos(new_idx, p);
        }
        assert(new_idx[n].item_ids@ =~= Seq::<u64>::empty().push(id));
    }
}

/// `n` copies of `x`.
pub open spec fn repeat<A>(x: A, n: nat) -> Seq<A> {
    Seq::new(n, |i: int| x)
}

/// Occurrences in a concatenation add up.
pub proof fn lemma_occurrences_concat<A>(a: Seq<A>, b: Seq<A>, x: A)
    ensures
        occurrences(a + b, x) == occurrences(a, x) + occurrences(b, x),
    decreases b.len(),
{
    if b.len() == 0 {
        assert(a + b =~= a);
    } else {
        lemma_occurrences_concat(a, b.drop_last(), x);
        assert((a + b).drop_last() =~= a + b.drop_last());
    }
}

/// How often `x` occurs among `n` copies of `y`.
pub proof fn lemma_occurrences_repeat<A>(y: A, n: nat, x: A)
    ensures
        occurrences(repeat(y, n), x) == if y == x { n } else { 0 },
    decreases n,
{
    if n > 0 {
        lemma_occurrences_repeat(y, (n - 1) as nat, x);
        assert(repeat(y, n).drop_last() =~= repeat(y, (n - 1) as nat));
    }
}

/// The first position of `k` in `keys` is `j`.
pub open spec fn first_at(keys: Seq<Seq<char>>, k: Seq<char>, j: int) -> bool {
    0 <= j < keys.len() && keys[j] == k && forall|q: int| 0 <= q < j ==> keys[q] != k
}

/// What filing the item `id` under the keys `keys` (labelled `labels`) does to an index.
pub open spec fn item_filed(
    before: Seq<IndexEntry>,
    after: Seq<IndexEntry>,
    keys: Seq<Seq<char>>,
    labels: Seq<Seq<char>>,
    id: u64,
) -> bool {
    &&& keys_distinct(after)
    &&& forall|k: Seq<char>| #[trigger] has_key(after, k) <==> (has_key(before, k) || keys.contains(k))
    &&& forall|k: Seq<char>| #[trigger] ids_of(after, k) == ids_of(before, k) + repeat(id, occurrences(keys, k))
    &&& forall|k: Seq<char>| has_key(before, k) ==> #[trigger] label_of(after, k) == label_of(before, k)
    &&& forall|k: Seq<char>, j: int|
        !has_key(before, k) && #[trigger] first_at(keys, k, j) ==> label_of(after, k) == labels[j]
}

/// Files the item `id` under each key in turn; a key without an entry gets one,
/// labelled with the label at the key's first position.
pub fn index_item(idx: &mut Vec<IndexEntry>, keys: &Vec<String>, labels: &Vec<String>, id: u64)
    requires
        keys_distinct(old(idx)@),
        keys@.len() == labels@.len(),
    ensures
        item_filed(old(idx)@, final(idx)@, crate::item::strings_view(keys@), crate::item::strings_view(labels@), id),
{
    let ghost start = idx@;
    let ghost kv = crate::item::strings_view(keys@);
    let mut j: usize = 0;
    while j < keys.len()
        invariant
            kv == crate::item::strings_view(keys@),
            keys@.len() == labels@.len(),
            j <= keys@.len(),
            keys_distinct(start),
            keys_distinct(idx@),
            forall|k: Seq<char>| #[trigger] has_key(idx@, k) <==> (has_key(start, k) || kv.take(j as int).contains(k)),
            forall|k: Seq<char>| ids_of(idx@, k) == ids_of(start, k) + repeat(id, occurrences(kv.take(j as int), k)),
            forall|k: Seq<char>| has_key(start, k) ==> label_of(idx@, k) == label_of(start, k),
            forall|k: Seq<char>, q: int|
                !has_key(start, k) && q < j && first_at(kv, k, q) ==> label_of(idx@, k) == labels@[q]@,
        decreases keys@.len() - j,
    {
        let ghost before = idx@;
        let key = keys[j].clone();
        let label = labels[j].clone();
        assert(key@ == kv[j as int]);
        index_add(idx, key, label, id);
        proof {
            let kj = kv[j as int];
            assert forall|k: Seq<char>| has_key(idx@, k) <==> (has_key(before, k) || k == kj) by {}
            assert forall|k: Seq<char>| kv.take(j + 1).contains(k) <==> (kv.take(j as int).contains(k) || k == kj) by {
                let t1 = kv.take(j + 1);
                let t0 = kv.take(j as int);
                if t1.contains(k) && k != kj {
                    let p = choose|p: int| 0 <= p < t1.len() && t1[p] == k;
                    assert(t0[p] == k);
                }
                if t0.contains(k) {
                    let p = choose|p: int| 0 <= p < t0.len() && t0[p] == k;
                    assert(t1[p] == k);
                }
                if k == kj {
                    assert(t1[j as int] == k);
                }
            }
            assert(kv.take(j + 1) =~= kv.take(j as int).push(kj));
            assert(kv.take(j + 1).drop_last() =~= kv.take(j as int));
            assert forall|k: Seq<char>| #[trigger] has_key(idx@, k) <==> (has_key(start, k) || kv.take(j + 1).contains(k)) by {
                assert(has_key(idx@, k) <==> (has_key(before, k) || k == kj));
                assert(has_key(before, k) <==> (has_key(start, k) || kv.take(j as int).contains(k)));
                assert(kv.take(j + 1).contains(k) <==> (kv.take(j as int).contains(k) || k == kj));
            }
            assert forall|k: Seq<char>| ids_of(idx@, k) == ids_of(start, k) + repeat(id, occurrences(kv.take(j + 1), k)) by {
                if k == kj {
                    assert(repeat(id, occurrences(kv.take(j + 1), k)) =~= repeat(id, occurrences(kv.take(j as int), k)).push(id));
                    assert(ids_of(idx@, k) =~= ids_of(start, k) + repeat(id, occurrences(kv.take(j + 1), k)));
                } else {
                    assert(occurrences(kv.take(j + 1), k) == occurrences(kv.take(j as int), k));
                }
            }
            assert forall|k: Seq<char>, q: int|
                !has_key(start, k) && q < j + 1 && first_at(kv, k, q) implies label_of(idx@, k) == labels@[q]@ by {
                if q == j {
                    if has_key(before, k) {
                        assert(kv.take(j as int).contains(k));
                        let p = choose|p: int| 0 <= p < j && kv.take(j as int)[p] == k;
                        assert(kv[p] == k);
                    }
                } else {
                    assert(has_key(before, k)) by {
                        assert(kv.take(j as int)[q] == k);
                    }
                }
            }
        }
        j = j + 1;
    }
    proof {
        assert(kv.take(kv.len() as int) =~= kv);
        assert forall|k: Seq<char>| has_key(idx@, k) <==> (has_key(start, k) || kv.contains(k)) by {
            assert(has_key(idx@, k) <==> (has_key(start, k) || kv.take(j as int).contains(k)));
        }
        assert forall|k: Seq<char>| ids_of(idx@, k) == ids_of(start, k) + repeat(id, occurrences(kv, k)) by {
            assert(ids_of(idx@, k) == ids_of(start, k) + repeat(id, occurrences(kv.take(j as int), k)));
        }
    }
}

/// `keys` holds `k` somewhere, so it has a first position of `k`.
pub proof fn lemma_first_at(keys: Seq<Seq<char>>, k: Seq<char>)
    requires
        keys.contains(k),
    ensures
        exists|j: int| first_at(keys, k, j),
{
    let w = choose|j: int| 0 <= j < keys.len() && keys[j] == k;
    lemma_first_at_below(keys, k, w);
}

proof fn lemma_first_at_below(keys: Seq<Seq<char>>, k: Seq<char>, w: int)
    requires
        0 <= w < keys.len(),
        keys[w] == k,
    ensures
        exists|j: int| first_at(keys, k, j),
    decreases w,
{
    if exists|q: int| 0 <= q < w && keys[q] == k {
        let q = choose|q: int| 0 <= q < w && keys[q] == k;
        lemma_first_at_below(keys, k, q);
    } else {
        assert(first_at(keys, k, w));
    }
}

/// An index built from `before` by filing each item whose id is in `done` under
/// each of its keys (`keys_of`), a new key labelled as one of the item's
/// corresponding labels (`labels_of`).
pub open spec fn index_built(
    before: Seq<IndexEntry>,
    after: Seq<IndexEntry>,
    items: Map<u64, crate::item::ResearchItemView>,
    done: Set<u64>,
    keys_of: spec_fn(crate::item::ResearchItemView) -> Seq<Seq<char>>,
    labels_of: spec_fn(crate::item::ResearchItemView) -> Seq<Seq<char>>,
) -> bool {
    &&& keys_distinct(after)
    &&& forall|key: Seq<char>| #[trigger] has_key(after, key) <==> (has_key(before, key)
        || exists|k: u64| done.contains(k) && #[trigger] keys_of(items[k]).contains(key))
    &&& forall|key: Seq<char>, k: u64| #[trigger] occurrences(ids_of(after, key), k)
        == occurrences(ids_of(before, key), k) + if done.contains(k) { occurrences(keys_of(items[k]), key) } else { 0 }
    &&& forall|key: Seq<char>| ids_of(before, key).len() <= #[trigger] ids_of(after, key).len()
        && ids_of(after, key).take(ids_of(before, key).len() as int) == ids_of(before, key)
    &&& forall|key: Seq<char>| has_key(before, key) ==> #[trigger] label_of(after, key) == label_of(before, key)
    &&& forall|key: Seq<char>| !has_key(before, key) && #[trigger] has_key(after, key) ==>
        exists|k: u64, j: int| done.contains(k) && 0 <= j < keys_of(items[k]).len()
            && keys_of(items[k])[j] == key && label_of(after, key) == #[trigger] labels_of(items[k])[j]
}

/// Nothing filed yet: the index is as it was.
pub proof fn lemma_index_built_start(
    idx: Seq<IndexEntry>,
    items: Map<u64, crate::item::ResearchItemView>,
    keys_of: spec_fn(crate::item::ResearchItemView) -> Seq<Seq<char>>,
    labels_of: spec_fn(crate::item::ResearchItemView) -> Seq<Seq<char>>,
)
    requires
        keys_distinct(idx),
    ensures
        index_built(idx, idx, items, Set::empty(), keys_of, labels_of),
{
    assert forall|key: Seq<char>| ids_of(idx, key).len() <= #[trigger] ids_of(idx, key).len()
        && ids_of(idx, key).take(ids_of(idx, key).len() as int) == ids_of(idx, key) by {
        assert(ids_of(idx, key).take(ids_of(idx, key).len() as int) =~= ids_of(idx, key));
    }
}

/// Filing one more item keeps the index built.
pub proof fn lemma_index_built_step(
    before: Seq<IndexEntry>,
    cur: Seq<IndexEntry>,
    next: Seq<IndexEntry>,
    items: Map<u64, crate::item::ResearchItemView>,
    done: Set<u64>,
    kc: u64,
    keys_of: spec_fn(crate::item::ResearchItemView) -> Seq<Seq<char>>,
    labels_of: spec_fn(crate::item::ResearchItemView) -> Seq<Seq<char>>,
)
    requires
        index_built(before, cur, items, done, keys_of, labels_of),
        item_filed(cur, next, keys_of(items[kc]), labels_of(items[kc]), kc),
        !done.contains(kc),
    ensures
        index_built(before, next, items, done.insert(kc), keys_of, labels_of),
{
    let nd = done.insert(kc);
    let kk = keys_of(items[kc]);
    assert forall|key: Seq<char>| #[trigger] has_key(next, key) <==> (has_key(before, key)
        || exists|k: u64| nd.contains(k) && #[trigger] keys_of(items[k]).contains(key)) by {
        assert(has_key(next, key) <==> (has_key(cur, key) || kk.contains(key)));
        assert(has_key(cur, key) <==> (has_key(before, key)
            || exists|k: u64| done.contains(k) && #[trigger] keys_of(items[k]).contains(key)));
        if exists|k: u64| nd.contains(k) && #[trigger] keys_of(items[k]).contains(key) {
            let k = choose|k: u64| nd.contains(k) && #[trigger] keys_of(items[k]).contains(key);
            if k != kc {
                assert(done.contains(k));
            }
        }
        if kk.contains(key) {
            assert(nd.contains(kc) && keys_of(items[kc]).contains(key));
        }
    }
    assert forall|key: Seq<char>, k: u64| #[trigger] occurrences(ids_of(next, key), k)
        == occurrences(ids_of(before, key), k) + if nd.contains(k) { occurrences(keys_of(items[k]), key) } else { 0 } by {
        assert(ids_of(next, key) == ids_of(cur, key) + repeat(kc, occurrences(kk, key)));
        lemma_occurrences_concat(ids_of(cur, key), repeat(kc, occurrences(kk, key)), k);
        lemma_occurrences_repeat(kc, occurrences(kk, key), k);
        assert(occurrences(ids_of(cur, key), k)
            == occurrences(ids_of(before, key), k) + if done.contains(k) { occurrences(keys_of(items[k]), key) } else { 0 });
    }
    assert forall|key: Seq<char>| ids_of(before, key).len() <= #[trigger] ids_of(next, key).len()
        && ids_of(next, key).take(ids_of(before, key).len() as int) == ids_of(before, key) by {
        let a = ids_of(cur, key);
        let b = repeat(kc, occurrences(kk, key));
        assert(ids_of(next, key) == a + b);
        assert(ids_of(before, key).len() <= a.len() && a.take(ids_of(before, key).len() as int) == ids_of(before, key));
        assert((a + b).take(ids_of(before, key).len() as int) =~= a.take(ids_of(before, key).len() as int));
    }
    assert forall|key: Seq<char>| has_key(before, key) implies #[trigger] label_of(next, key) == label_of(before, key) by {
        assert(has_key(cur, key));
        assert(label_of(next, key) == label_of(cur, key));
        assert(label_of(cur, key) == label_of(before, key));
    }
    assert forall|key: Seq<char>| !has_key(before, key) && #[trigger] has_key(next, key) implies
        exists|k: u64, j: int| nd.contains(k) && 0 <= j < keys_of(items[k]).len()
            && keys_of(items[k])[j] == key && label_of(next, key) == #[trigger] labels_of(items[k])[j] by {
        if has_key(cur, key) {
            assert(label_of(next, key) == label_of(cur, key));
            assert(exists|k: u64, j: int| done.contains(k) && 0 <= j < keys_of(items[k]).len()
                && keys_of(items[k])[j] == key && label_of(cur, key) == #[trigger] labels_of(items[k])[j]);
            let (k, j) = choose|k: u64, j: int| done.contains(k) && 0 <= j < keys_of(items[k]).len()
                && keys_of(items[k])[j] == key && label_of(cur, key) == #[trigger] labels_of(items[k])[j];
            assert(nd.contains(k));
        } else {
            assert(kk.contains(key));
            lemma_first_at(kk, key);
            let j = choose|j: int| first_at(kk, key, j);
            assert(label_of(next, key) == labels_of(items[kc])[j]);
            assert(nd.contains(kc));
        }
    }
}

/// A value occurs in a sequence exactly when the sequence contains it.
pub proof fn lemma_occurrences_contains<A>(s: Seq<A>, x: A)
    ensures
        (occurrences(s, x) > 0) <==> s.contains(x),
    decreases s.len(),
{
    if s.len() > 0 {
        lemma_occurrences_contains(s.drop_last(), x);
        if s.drop_last().contains(x) {
            let i = choose|i: int| 0 <= i < s.drop_last().len() && s.drop_last()[i] == x;
            assert(s[i] == x);
        }
        if s.contains(x) && s.last() != x {
            let i = choose|i: int| 0 <= i < s.len() && s[i] == x;
            assert(s.drop_last()[i] == x);
        }
    }
}

/// An index built from nothing over all the items of a map files each item under
/// a key exactly as often as the key occurs among the item's keys; it has an entry
/// for a key exactly when some item has the key, and files nothing else.
pub proof fn lemma_built_index_exact(
    after: Seq<IndexEntry>,
    items: Map<u64, crate::item::ResearchItemView>,
    keys_of: spec_fn(crate::item::ResearchItemView) -> Seq<Seq<char>>,
    labels_of: spec_fn(crate::item::ResearchItemView) -> Seq<Seq<char>>,
)
    requires
        index_built(Seq::empty(), after, items, items.dom(), keys_of, labels_of),
    ensures
        forall|key: Seq<char>, k: u64| #[trigger] occurrences(ids_of(after, key), k)
            == if items.contains_key(k) { occurrences(keys_of(items[k]), key) } else { 0 },
        forall|key: Seq<char>, k: u64| #[trigger] ids_of(after, key).contains(k)
            <==> (items.contains_key(k) && keys_of(items[k]).contains(key)),
        forall|key: Seq<char>| #[trigger] has_key(after, key)
            <==> exists|k: u64| items.contains_key(k) && #[trigger] keys_of(items[k]).contains(key),
{
    let e = Seq::<IndexEntry>::empty();
    assert forall|key: Seq<char>| !has_key(e, key) by {}
    assert forall|key: Seq<char>, k: u64| #[trigger] occurrences(ids_of(after, key), k)
        == if items.contains_key(k) { occurrences(keys_of(items[k]), key) } else { 0 } by {
        assert(ids_of(e, key) =~= Seq::<u64>::empty());
        assert(occurrences(ids_of(e, key), k) == 0);
    }
    assert forall|key: Seq<char>, k: u64| #[trigger] ids_of(after, key).contains(k)
        <==> (items.contains_key(k) && keys_of(items[k]).contains(key)) by {
        assert(ids_of(e, key) =~= Seq::<u64>::empty());
        lemma_occurrences_contains(ids_of(after, key), k);
        if items.contains_key(k) {
            lemma_occurrences_contains(keys_of(items[k]), key);
        }
    }
}

} // verus!
