//! Directed graphs on the nodes `0..n`, given by an edge predicate and by the
//! lists of successors that represent it, and whether a cycle can be reached from
//! given roots.

use vstd::prelude::*;

verus! {

/// Whether `succ` lists, for each node, exactly its successors under `edge`.
pub open spec fn represents(succ: Seq<Vec<usize>>, edge: spec_fn(int, int) -> bool) -> bool {
    &&& forall|i: int, q: int| 0 <= i < succ.len() && 0 <= q < succ[i]@.len() ==>
        (#[trigger] succ[i]@[q]) < succ.len() && edge(i, succ[i]@[q] as int)
    &&& forall|i: int, j: int| 0 <= i < succ.len() && 0 <= j < succ.len() && #[trigger] edge(i, j) ==>
        exists|q: int| 0 <= q < succ[i]@.len() && succ[i]@[q] as int == j
}

/// Whether the set `s` of nodes holds every successor of each of its nodes.
pub open spec fn closed(n: nat, edge: spec_fn(int, int) -> bool, s: Seq<bool>) -> bool {
    &&& s.len() == n
    &&& forall|i: int, j: int| 0 <= i < n && 0 <= j < n && s[i] && #[trigger] edge(i, j) ==> s[j]
}

/// Whether the set `s` holds every root.
pub open spec fn holds_roots(n: nat, roots: Seq<bool>, s: Seq<bool>) -> bool {
    forall|i: int| 0 <= i < n && #[trigger] roots[i] ==> s[i]
}

/// Whether `rank` decreases along every edge between nodes of `s`.
pub open spec fn ranks(n: nat, edge: spec_fn(int, int) -> bool, s: Seq<bool>, rank: Seq<nat>) -> bool {
    &&& rank.len() == n
    &&& forall|i: int, j: int| 0 <= i < n && 0 <= j < n && s[i] && s[j] && #[trigger] edge(i, j)
        ==> rank[j] < rank[i]
}

/// Whether no cycle can be reached from the roots: some set of nodes that holds the
/// roots and every successor of its nodes is ranked so that every edge goes down.
pub open spec fn acyclic_from(n: nat, edge: spec_fn(int, int) -> bool, roots: Seq<bool>) -> bool {
    exists|s: Seq<bool>, rank: Seq<nat>|
        closed(n, edge, s) && holds_roots(n, roots, s) && #[trigger] ranks(n, edge, s, rank)
}

/// The number of `true` values in a sequence.
pub open spec fn count_true(s: Seq<bool>) -> nat
    decreases s.len(),
{
    if s.len() == 0 {
        0
    } else {
        count_true(s.drop_last()) + if s.last() { 1nat } else { 0nat }
    }
}

/// Setting a `false` value to `true` adds one to the count.
proof fn lemma_count_set(s: Seq<bool>, x: int)
    requires
        0 <= x < s.len(),
        !s[x],
    ensures
        count_true(s.update(x, true)) == count_true(s) + 1,
    decreases s.len(),
{
    let t = s.update(x, true);
    if x == s.len() - 1 {
        assert(t.drop_last() =~= s.drop_last());
    } else {
        assert(t.drop_last() =~= s.drop_last().update(x, true));
        lemma_count_set(s.drop_last(), x);
    }
}

/// A sequence of `false` values counts none.
proof fn lemma_count_zero(s: Seq<bool>)
    requires
        forall|i: int| 0 <= i < s.len() ==> !(#[trigger] s[i]),
    ensures
        count_true(s) == 0,
    decreases s.len(),
{
    if s.len() > 0 {
        assert forall|i: int| 0 <= i < s.drop_last().len() implies !(#[trigger] s.drop_last()[i]) by {
            assert(s.drop_last()[i] == s[i]);
        }
        lemma_count_zero(s.drop_last());
    }
}

/// Counting a subset: it counts no more, and as many only when it is the whole set.
proof fn lemma_count_subset(d: Seq<bool>, s: Seq<bool>)
    requires
        d.len() == s.len(),
        forall|i: int| 0 <= i < d.len() && #[trigger] d[i] ==> s[i],
    ensures
        count_true(d) <= count_true(s),
        count_true(d) == count_true(s) ==> forall|i: int| 0 <= i < d.len() && #[trigger] s[i] ==> d[i],
        count_true(d) < count_true(s) ==> exists|i: int| 0 <= i < d.len() && #[trigger] s[i] && !d[i],
        count_true(s) <= s.len(),
    decreases d.len(),
{
    if d.len() > 0 {
        let n = d.len() - 1;
        assert forall|i: int| 0 <= i < d.drop_last().len() && #[trigger] d.drop_last()[i] implies s.drop_last()[i] by {
            assert(d.drop_last()[i] == d[i] && s.drop_last()[i] == s[i]);
        }
        lemma_count_subset(d.drop_last(), s.drop_last());
        assert(d.last() == d[n] && s.last() == s[n]);
        if count_true(d) == count_true(s) {
            assert forall|i: int| 0 <= i < d.len() && #[trigger] s[i] implies d[i] by {
                if i < n {
                    assert(d.drop_last()[i] == d[i] && s.drop_last()[i] == s[i]);
                }
            }
        }
        if count_true(d) < count_true(s) {
            if s[n] && !d[n] {
            } else {
                let i = choose|i: int| 0 <= i < d.drop_last().len() && #[trigger] s.drop_last()[i] && !d.drop_last()[i];
                assert(d.drop_last()[i] == d[i] && s.drop_last()[i] == s[i]);
            }
        }
    }
}

/// Copies a sequence of flags.
fn copy_flags(v: &Vec<bool>) -> (r: Vec<bool>)
    ensures
        r@ == v@,
{
    let mut r: Vec<bool> = Vec::new();
    let mut i: usize = 0;
    while i < v.len()
        invariant
            i <= v@.len(),
            r@ == v@.take(i as int),
        decreases v@.len() - i,
    {
        r.push(v[i]);
        i = i + 1;
        assert(r@ =~= v@.take(i as int));
    }
    assert(v@.take(v@.len() as int) =~= v@);
    r
}

/// The nodes reachable from the roots: the least set of nodes that holds the roots
/// and every successor of its nodes.
fn reachable(succ: &Vec<Vec<usize>>, roots: &Vec<bool>, Ghost(edge): Ghost<spec_fn(int, int) -> bool>) -> (s: Vec<bool>)
    requires
        roots@.len() == succ@.len(),
        represents(succ@, edge),
    ensures
        closed(succ@.len() as nat, edge, s@),
        holds_roots(succ@.len() as nat, roots@, s@),
        forall|s2: Seq<bool>| closed(succ@.len() as nat, edge, s2) && holds_roots(succ@.len() as nat, roots@, s2)
            ==> forall|i: int| 0 <= i < succ@.len() && #[trigger] s@[i] ==> s2[i],
{
    let n = succ.len();
    let ghost nn = n as nat;
    let mut marked = copy_flags(roots);
    let mut stack: Vec<usize> = Vec::new();
    let mut k: usize = 0;
    while k < n
        invariant
            n == succ@.len(),
            marked@ == roots@,
            roots@.len() == n,
            k <= n,
            forall|p: int| 0 <= p < stack@.len() ==> (#[trigger] stack@[p]) < n && marked@[stack@[p] as int],
            forall|i: int| 0 <= i < k && #[trigger] marked@[i] ==> stack@.contains(i as usize),
        decreases n - k,
    {
        let ghost st0 = stack@;
        if roots[k] {
            stack.push(k);
            assert(stack@[stack@.len() - 1] == k);
        }
        assert forall|i: int| 0 <= i < k + 1 && #[trigger] marked@[i] implies stack@.contains(i as usize) by {
            if i < k {
                let p = choose|p: int| 0 <= p < st0.len() && st0[p] == i as usize;
                assert(stack@[p] == st0[p]);
            } else {
                assert(stack@[stack@.len() - 1] == i as usize);
            }
        }
        k = k + 1;
    }
    proof {
        lemma_count_subset(marked@, marked@);
    }
    while stack.len() > 0
        invariant
            n == succ@.len(),
            nn == n as nat,
            represents(succ@, edge),
            marked@.len() == n,
            holds_roots(nn, roots@, marked@),
            count_true(marked@) <= n,
            forall|p: int| 0 <= p < stack@.len() ==> (#[trigger] stack@[p]) < n && marked@[stack@[p] as int],
            forall|i: int| 0 <= i < n && #[trigger] marked@[i] ==>
                stack@.contains(i as usize) || forall|j: int| 0 <= j < n && edge(i, j) ==> marked@[j],
            forall|s2: Seq<bool>| closed(nn, edge, s2) && holds_roots(nn, roots@, s2)
                ==> forall|i: int| 0 <= i < n && #[trigger] marked@[i] ==> s2[i],
        decreases n - count_true(marked@), stack@.len(),
    {
        let ghost stack0 = stack@;
        let ghost count0 = count_true(marked@);
        let ghost marked0 = marked@;
        let i = stack.pop().unwrap();
        assert(i == stack0.last());
        assert(stack@ == stack0.drop_last());
        let row = &succ[i];
        let mut q: usize = 0;
        let ghost mut pushed: nat = 0;
        while q < row.len()
            invariant
                n == succ@.len(),
                nn == n as nat,
                represents(succ@, edge),
                i < n,
                row == &succ@[i as int],
                q <= row@.len(),
                marked@.len() == n,
                marked0[i as int],
                holds_roots(nn, roots@, marked@),
                forall|x: int| 0 <= x < n && #[trigger] marked0[x] ==> marked@[x],
                count_true(marked@) == count0 + pushed,
                count_true(marked@) <= n,
                stack@.len() == stack0.len() - 1 + pushed,
                forall|p: int| 0 <= p < stack0.len() - 1 ==> #[trigger] stack@[p] == stack0[p],
                forall|p: int| 0 <= p < stack@.len() ==> (#[trigger] stack@[p]) < n && marked@[stack@[p] as int],
                forall|x: int| 0 <= x < n && #[trigger] marked@[x] && !marked0[x] ==> stack@.contains(x as usize),
                forall|p: int| 0 <= p < q ==> marked@[#[trigger] row@[p] as int],
                forall|s2: Seq<bool>| closed(nn, edge, s2) && holds_roots(nn, roots@, s2)
                    ==> forall|x: int| 0 <= x < n && #[trigger] marked@[x] ==> s2[x],
            decreases row@.len() - q,
        {
            let j = row[q];
            assert(j < n && edge(i as int, j as int));
            if !marked[j] {
                proof {
                    lemma_count_set(marked@, j as int);
                    lemma_count_subset(marked@.update(j as int, true), marked@.update(j as int, true));
                }
                let ghost m1 = marked@;
                let ghost st1 = stack@;
                marked.set(j, true);
                stack.push(j);
                proof {
                    pushed = pushed + 1;
                    assert(stack@[stack@.len() - 1] == j);
                    assert forall|s2: Seq<bool>| closed(nn, edge, s2) && holds_roots(nn, roots@, s2)
                        implies forall|x: int| 0 <= x < n && #[trigger] marked@[x] ==> s2[x] by {
                        assert(m1[i as int]);
                        assert(s2[i as int]);
                        assert(edge(i as int, j as int));
                    }
                    assert forall|x: int| 0 <= x < n && #[trigger] marked@[x] && !marked0[x]
                        implies stack@.contains(x as usize) by {
                        if x != j as int {
                            assert(m1[x]);
                            assert(st1.contains(x as usize));
                            let p = choose|p: int| 0 <= p < st1.len() && st1[p] == x as usize;
                            assert(stack@[p] == st1[p]);
                        } else {
                            assert(stack@[stack@.len() - 1] == j);
                        }
                    }
                }
            }
            q = q + 1;
        }
        proof {
            assert forall|j: int| 0 <= j < n && edge(i as int, j) implies marked@[j] by {
                let p = choose|p: int| 0 <= p < row@.len() && row@[p] as int == j;
                assert(marked@[row@[p] as int]);
            }
            assert forall|x: int| 0 <= x < n && #[trigger] marked@[x] implies
                stack@.contains(x as usize) || forall|j: int| 0 <= j < n && edge(x, j) ==> marked@[j] by {
                if x != i as int && marked0[x] {
                    if stack0.contains(x as usize) {
                        let p = choose|p: int| 0 <= p < stack0.len() && stack0[p] == x as usize;
                        assert(p != stack0.len() - 1);
                        assert(stack@[p] == x as usize);
                    } else {
                        assert forall|j: int| 0 <= j < n && edge(x, j) implies marked@[j] by {
                            assert(marked0[j]);
                        }
                    }
                }
            }
        }
    }
    proof {
        assert forall|i: int, j: int| 0 <= i < nn && 0 <= j < nn && marked@[i] && #[trigger] edge(i, j)
            implies marked@[j] by {
            assert(!stack@.contains(i as usize));
        }
    }
    marked
}

/// Whether entry `x`, not yet ranked, has an edge to a node not yet ranked.
spec fn escapes(n: nat, edge: spec_fn(int, int) -> bool, d: Seq<bool>, x: int) -> bool {
    exists|y: int| 0 <= y < n && edge(x, y) && !d[y]
}

/// The state of the ranking of the nodes of `s`: `count` of them are ranked, each
/// below `count`, and a ranked node has edges only to ranked nodes of lower rank.
spec fn rank_state(
    n: nat,
    edge: spec_fn(int, int) -> bool,
    s: Seq<bool>,
    done: Seq<bool>,
    rank: Seq<usize>,
    count: usize,
) -> bool {
    &&& done.len() == n
    &&& rank.len() == n
    &&& count_true(done) == count
    &&& forall|x: int| 0 <= x < n && #[trigger] done[x] ==> s[x] && rank[x] < count
    &&& forall|x: int, y: int| 0 <= x < n && 0 <= y < n && done[x] && #[trigger] edge(x, y)
        ==> done[y] && rank[y] < rank[x]
}

/// Whether every node listed in `row` is ranked.
fn all_ranked(row: &Vec<usize>, done: &Vec<bool>) -> (ok: bool)
    requires
        forall|p: int| 0 <= p < row@.len() ==> (#[trigger] row@[p]) < done@.len(),
    ensures
        ok == forall|p: int| 0 <= p < row@.len() ==> done@[#[trigger] row@[p] as int],
{
    let mut q: usize = 0;
    while q < row.len()
        invariant
            forall|p: int| 0 <= p < row@.len() ==> (#[trigger] row@[p]) < done@.len(),
            q <= row@.len(),
            forall|p: int| 0 <= p < q ==> done@[#[trigger] row@[p] as int],
        decreases row@.len() - q,
    {
        if !done[row[q]] {
            return false;
        }
        q = q + 1;
    }
    true
}

/// One pass over the nodes of `s`, ranking each node whose edges all go to ranked
/// nodes. Where it ranks none, every node of `s` left has an edge to a node left.
fn rank_pass(
    succ: &Vec<Vec<usize>>,
    s: &Vec<bool>,
    done: &mut Vec<bool>,
    rank: &mut Vec<usize>,
    count: usize,
    Ghost(edge): Ghost<spec_fn(int, int) -> bool>,
) -> (c: usize)
    requires
        represents(succ@, edge),
        s@.len() == succ@.len(),
        closed(succ@.len() as nat, edge, s@),
        rank_state(succ@.len() as nat, edge, s@, old(done)@, old(rank)@, count),
    ensures
        rank_state(succ@.len() as nat, edge, s@, final(done)@, final(rank)@, c),
        c >= count,
        c == count ==> final(done)@ == old(done)@ && forall|x: int| 0 <= x < succ@.len() && s@[x]
            && !final(done)@[x] ==> #[trigger] escapes(succ@.len() as nat, edge, final(done)@, x),
{
    let n = succ.len();
    let ghost nn = n as nat;
    let ghost done0 = done@;
    let mut c = count;
    let mut a: usize = 0;
    while a < n
        invariant
            n == succ@.len(),
            nn == n as nat,
            s@.len() == n,
            represents(succ@, edge),
            closed(nn, edge, s@),
            rank_state(nn, edge, s@, done@, rank@, c),
            a <= n,
            c >= count,
            c == count ==> done@ == done0,
            c == count ==> forall|x: int| 0 <= x < a && s@[x] && !done0[x] ==> #[trigger] escapes(nn, edge, done0, x),
        decreases n - a,
    {
        if s[a] && !done[a] {
            let row = &succ[a];
            assert(forall|p: int| 0 <= p < row@.len() ==> (#[trigger] row@[p]) < n && edge(a as int, row@[p] as int));
            if all_ranked(row, done) {
                proof {
                    assert forall|y: int| 0 <= y < n && #[trigger] edge(a as int, y) implies done@[y] by {
                        let p = choose|p: int| 0 <= p < row@.len() && row@[p] as int == y;
                        assert(done@[row@[p] as int]);
                    }
                    lemma_count_set(done@, a as int);
                    lemma_count_subset(done@.update(a as int, true), done@.update(a as int, true));
                }
                let ghost d1 = done@;
                done.set(a, true);
                rank.set(a, c);
                assert forall|x: int, y: int| 0 <= x < n && 0 <= y < n && done@[x] && #[trigger] edge(x, y)
                    implies done@[y] && rank@[y] < rank@[x] by {
                    if x == a as int {
                        assert(d1[y]);
                    } else {
                        assert(d1[x]);
                    }
                }
                assert forall|x: int| 0 <= x < n && #[trigger] done@[x] implies s@[x] && rank@[x] < c + 1 by {
                    if x != a as int {
                        assert(d1[x]);
                    }
                }
                c = c + 1;
            } else {
                proof {
                    let p = choose|p: int| 0 <= p < row@.len() && !done@[#[trigger] row@[p] as int];
                    assert(edge(a as int, row@[p] as int));
                    assert(escapes(nn, edge, done@, a as int));
                }
            }
        }
        a = a + 1;
    }
    c
}

/// Where some node of a closed set that holds the roots is left, and every node of
/// it left has an edge to a node left, a cycle can be reached from the roots.
proof fn lemma_stuck(n: nat, edge: spec_fn(int, int) -> bool, roots: Seq<bool>, s: Seq<bool>, d: Seq<bool>, x0: int)
    requires
        closed(n, edge, s),
        d.len() == n,
        0 <= x0 < n,
        s[x0] && !d[x0],
        forall|x: int| 0 <= x < n && s[x] && !d[x] ==> #[trigger] escapes(n, edge, d, x),
        forall|s2: Seq<bool>| closed(n, edge, s2) && holds_roots(n, roots, s2)
            ==> forall|i: int| 0 <= i < n && #[trigger] s[i] ==> s2[i],
    ensures
        !acyclic_from(n, edge, roots),
{
    if acyclic_from(n, edge, roots) {
        let (s2, rank) = choose|s2: Seq<bool>, rank: Seq<nat>|
            closed(n, edge, s2) && holds_roots(n, roots, s2) && #[trigger] ranks(n, edge, s2, rank);
        lemma_descent(n, edge, s, d, s2, rank, x0);
    }
}

/// No ranking covers a node of `s` from which every step can go on to a node left.
proof fn lemma_descent(
    n: nat,
    edge: spec_fn(int, int) -> bool,
    s: Seq<bool>,
    d: Seq<bool>,
    s2: Seq<bool>,
    rank: Seq<nat>,
    x: int,
)
    requires
        closed(n, edge, s),
        d.len() == n,
        0 <= x < n,
        s[x] && !d[x],
        forall|y: int| 0 <= y < n && s[y] && !d[y] ==> #[trigger] escapes(n, edge, d, y),
        forall|i: int| 0 <= i < n && #[trigger] s[i] ==> s2[i],
        rank.len() == n,
    ensures
        !ranks(n, edge, s2, rank),
    decreases rank[x],
{
    if ranks(n, edge, s2, rank) {
        assert(escapes(n, edge, d, x));
        let y = choose|y: int| 0 <= y < n && edge(x, y) && !d[y];
        assert(s[y]);
        assert(s2[x] && s2[y]);
        assert(rank[y] < rank[x]);
        lemma_descent(n, edge, s, d, s2, rank, y);
    }
}

/// Whether no cycle can be reached from the roots of the graph that `succ` represents.
pub fn acyclic_from_roots(succ: &Vec<Vec<usize>>, roots: &Vec<bool>, Ghost(edge): Ghost<spec_fn(int, int) -> bool>) -> (r: bool)
    requires
        roots@.len() == succ@.len(),
        represents(succ@, edge),
    ensures
        r == acyclic_from(succ@.len() as nat, edge, roots@),
{
    let n = succ.len();
    let ghost nn = n as nat;
    let s = reachable(succ, roots, Ghost(edge));
    let mut m: usize = 0;
    let mut k: usize = 0;
    let mut done: Vec<bool> = Vec::new();
    let mut rank: Vec<usize> = Vec::new();
    proof {
        lemma_count_zero(done@);
    }
    while k < n
        invariant
            n == succ@.len(),
            s@.len() == n,
            k <= n,
            done@.len() == k,
            rank@.len() == k,
            forall|x: int| 0 <= x < k ==> !(#[trigger] done@[x]),
            m as nat == count_true(s@.take(k as int)),
            m <= k,
        decreases n - k,
    {
        assert(s@.take(k + 1).drop_last() =~= s@.take(k as int));
        if s[k] {
            m = m + 1;
        }
        done.push(false);
        rank.push(0);
        k = k + 1;
    }
    assert(s@.take(n as int) =~= s@);
    let mut count: usize = 0;
    proof {
        lemma_count_zero(done@);
    }
    while count < m
        invariant
            n == succ@.len(),
            nn == n as nat,
            s@.len() == n,
            represents(succ@, edge),
            closed(nn, edge, s@),
            holds_roots(nn, roots@, s@),
            forall|s2: Seq<bool>| closed(nn, edge, s2) && holds_roots(nn, roots@, s2)
                ==> forall|i: int| 0 <= i < n && #[trigger] s@[i] ==> s2[i],
            m as nat == count_true(s@),
            rank_state(nn, edge, s@, done@, rank@, count),
        decreases m - count,
    {
        proof {
            lemma_count_subset(done@, s@);
        }
        let c = rank_pass(succ, &s, &mut done, &mut rank, count, Ghost(edge));
        if c == count {
            proof {
                lemma_count_subset(done@, s@);
                let x0 = choose|x: int| 0 <= x < n && #[trigger] s@[x] && !done@[x];
                lemma_stuck(nn, edge, roots@, s@, done@, x0);
            }
            return false;
        }
        proof {
            lemma_count_subset(done@, s@);
        }
        count = c;
    }
    proof {
        lemma_count_subset(done@, s@);
        let rk = rank@.map_values(|x: usize| x as nat);
        assert forall|i: int, j: int| 0 <= i < nn && 0 <= j < nn && s@[i] && s@[j] && #[trigger] edge(i, j)
            implies rk[j] < rk[i] by {
            assert(done@[i]);
        }
        assert(ranks(nn, edge, s@, rk));
    }
    true
}

} // verus!
