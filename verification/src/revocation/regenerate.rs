//! Regrouping the rows of a `*_runs.csv`: which rows make up each cell of
//! the summary, and the order the MPC sweep's rows are rewritten in. The
//! statistics over each group are the caller's.
use vstd::prelude::*;

verus! {

/// `(set_size, recurring_pct)` in lexicographic order.
pub open spec fn key_lt(a: (u64, i64), b: (u64, i64)) -> bool {
    a.0 < b.0 || (a.0 == b.0 && a.1 < b.1)
}

/// The rows whose key is `k`, in file order, among the first `j`.
pub open spec fn matching_upto(keys: Seq<Option<(u64, i64)>>, k: (u64, i64), j: nat) -> Seq<usize>
    decreases j,
{
    if j == 0 {
        Seq::empty()
    } else {
        let m = matching_upto(keys, k, (j - 1) as nat);
        if keys[j - 1] == Some(k) {
            m.push((j - 1) as usize)
        } else {
            m
        }
    }
}

pub open spec fn matching(keys: Seq<Option<(u64, i64)>>, k: (u64, i64)) -> Seq<usize> {
    matching_upto(keys, k, keys.len())
}

/// The rows of one summary cell.
pub struct Group {
    pub set_size: u64,
    pub pct: i64,
    /// Indices of the rows, in file order.
    pub rows: Vec<usize>,
}

pub open spec fn group_key(g: Group) -> (u64, i64) {
    (g.set_size, g.pct)
}

/// One group per key that occurs, keys ascending, each with every row that
/// carries it; rows without a key belong to no group.
pub open spec fn groups_spec(keys: Seq<Option<(u64, i64)>>, groups: Seq<Group>) -> bool {
    &&& forall|a: int, b: int|
        0 <= a < b < groups.len() ==> key_lt(group_key(#[trigger] groups[a]), group_key(
            #[trigger] groups[b],
        ))
    &&& forall|a: int|
        0 <= a < groups.len() ==> (#[trigger] groups[a]).rows@ == matching(keys, group_key(groups[a]))
            && groups[a].rows@.len() > 0
    &&& forall|i: int|
        0 <= i < keys.len() && (#[trigger] keys[i]) is Some ==> exists|a: int|
            0 <= a < groups.len() && group_key(#[trigger] groups[a]) == keys[i]->Some_0
}

proof fn lemma_matching_nonempty(keys: Seq<Option<(u64, i64)>>, k: (u64, i64), i: nat, j: nat)
    requires
        i < j <= keys.len(),
        keys[i as int] == Some(k),
    ensures
        matching_upto(keys, k, j).len() > 0,
    decreases j,
{
    if j - 1 > i {
        lemma_matching_nonempty(keys, k, i, (j - 1) as nat);
    }
}

/// The rows carrying key `k`, in file order.
fn rows_with(keys: &[Option<(u64, i64)>], k: (u64, i64)) -> (r: Vec<usize>)
    ensures
        r@ == matching(keys@, k),
{
    let mut r: Vec<usize> = Vec::new();
    for j in 0..keys.len()
        invariant
            r@ == matching_upto(keys@, k, j as nat),
    {
        match keys[j] {
            Some(x) => {
                if x.0 == k.0 && x.1 == k.1 {
                    r.push(j);
                }
            },
            None => {},
        }
    }
    r
}

/// Inserts `k` into the ascending, duplicate-free `ks`.
fn insert_key(ks: &mut Vec<(u64, i64)>, k: (u64, i64))
    requires
        forall|a: int, b: int| 0 <= a < b < old(ks)@.len() ==> key_lt(old(ks)@[a], old(ks)@[b]),
    ensures
        forall|a: int, b: int|
            0 <= a < b < final(ks)@.len() ==> key_lt(final(ks)@[a], final(ks)@[b]),
        forall|x: (u64, i64)| #[trigger] final(ks)@.contains(x) <==> (old(ks)@.contains(x) || x == k),
{
    let ghost old_ks = ks@;
    let mut p: usize = 0;
    while p < ks.len() && key_lt_exec(ks[p], k)
        invariant
            p <= ks@.len(),
            ks@ == old_ks,
            forall|q: int| 0 <= q < p ==> key_lt(ks@[q], k),
        decreases ks@.len() - p,
    {
        p = p + 1;
    }
    if p < ks.len() && ks[p].0 == k.0 && ks[p].1 == k.1 {
        assert(ks@[p as int] == k);
        return;
    }
    ks.insert(p, k);
    proof {
        let n = ks@;
        assert(n == old_ks.insert(p as int, k));
        assert forall|a: int, b: int| 0 <= a < b < n.len() implies key_lt(n[a], n[b]) by {
            if b < p {
            } else if b == p {
                assert(n[a] == old_ks[a]);
            } else if a < p {
                assert(n[b] == old_ks[b - 1]);
                if b - 1 > p {
                    assert(key_lt(old_ks[p as int], old_ks[b - 1]));
                }
            } else if a == p {
                assert(n[b] == old_ks[b - 1]);
                if b - 1 > p {
                    assert(key_lt(old_ks[p as int], old_ks[b - 1]));
                }
            } else {
                assert(n[a] == old_ks[a - 1]);
                assert(n[b] == old_ks[b - 1]);
            }
        }
        assert forall|x: (u64, i64)| #[trigger] n.contains(x) <==> (old_ks.contains(x) || x == k) by {
            if n.contains(x) {
                let t = choose|t: int| 0 <= t < n.len() && n[t] == x;
                if t < p {
                    assert(old_ks[t] == x);
                } else if t > p {
                    assert(old_ks[t - 1] == x);
                }
            }
            if old_ks.contains(x) {
                let t = choose|t: int| 0 <= t < old_ks.len() && old_ks[t] == x;
                if t < p {
                    assert(n[t] == x);
                } else {
                    assert(n[t + 1] == x);
                }
            }
            if x == k {
                assert(n[p as int] == k);
            }
        }
    }
}

fn key_lt_exec(a: (u64, i64), b: (u64, i64)) -> (r: bool)
    ensures
        r == key_lt(a, b),
{
    a.0 < b.0 || (a.0 == b.0 && a.1 < b.1)
}

/// Groups the rows by key: one group per key that occurs, keys ascending.
pub fn group_keys(keys: &[Option<(u64, i64)>]) -> (r: Vec<Group>)
    ensures
        groups_spec(keys@, r@),
{
    let mut ks: Vec<(u64, i64)> = Vec::new();
    for i in 0..keys.len()
        invariant
            forall|a: int, b: int| 0 <= a < b < ks@.len() ==> key_lt(ks@[a], ks@[b]),
            forall|x: (u64, i64)|
                #[trigger] ks@.contains(x) <==> exists|t: int|
                    0 <= t < i && keys@[t] == Some(x),
    {
        match keys[i] {
            Some(k) => {
                let ghost before = ks@;
                insert_key(&mut ks, k);
                proof {
                    assert forall|x: (u64, i64)| #[trigger] ks@.contains(x) <==> exists|t: int|
                        0 <= t < i + 1 && keys@[t] == Some(x) by {
                        if x == k {
                            assert(keys@[i as int] == Some(x));
                        }
                        if exists|t: int| 0 <= t < i + 1 && keys@[t] == Some(x) {
                            let t = choose|t: int| 0 <= t < i + 1 && keys@[t] == Some(x);
                            if t < i {
                                assert(before.contains(x));
                            }
                        }
                    }
                }
            },
            None => {
                proof {
                    assert forall|x: (u64, i64)| #[trigger] ks@.contains(x) <==> exists|t: int|
                        0 <= t < i + 1 && keys@[t] == Some(x) by {
                        if exists|t: int| 0 <= t < i + 1 && keys@[t] == Some(x) {
                            let t = choose|t: int| 0 <= t < i + 1 && keys@[t] == Some(x);
                            assert(t < i);
                        }
                    }
                }
            },
        }
    }
    let mut groups: Vec<Group> = Vec::new();
    for g in 0..ks.len()
        invariant
            forall|a: int, b: int| 0 <= a < b < ks@.len() ==> key_lt(ks@[a], ks@[b]),
            forall|x: (u64, i64)|
                #[trigger] ks@.contains(x) <==> exists|t: int|
                    0 <= t < keys@.len() && keys@[t] == Some(x),
            groups@.len() == g,
            forall|a: int| 0 <= a < g ==> group_key(#[trigger] groups@[a]) == ks@[a],
            forall|a: int|
                0 <= a < g ==> (#[trigger] groups@[a]).rows@ == matching(
                    keys@,
                    group_key(groups@[a]),
                ) && groups@[a].rows@.len() > 0,
    {
        let k = ks[g];
        let rows = rows_with(keys, k);
        proof {
            assert(ks@.contains(k));
            let t = choose|t: int| 0 <= t < keys@.len() && keys@[t] == Some(k);
            lemma_matching_nonempty(keys@, k, t as nat, keys@.len());
        }
        groups.push(Group { set_size: k.0, pct: k.1, rows });
    }
    proof {
        assert forall|i: int| 0 <= i < keys@.len() && (#[trigger] keys@[i]) is Some implies exists|
            a: int,
        | 0 <= a < groups@.len() && group_key(#[trigger] groups@[a]) == keys@[i]->Some_0 by {
            let x = keys@[i]->Some_0;
            assert(ks@.contains(x));
            let a = choose|a: int| 0 <= a < ks@.len() && ks@[a] == x;
            assert(group_key(groups@[a]) == x);
        }
    }
    groups
}

/// The summary cells of a grid sweep: rows grouped by set size and
/// recurring percentage; rows without a percentage are left out.
pub fn grid_groups(sizes: &[u64], pcts: &[Option<i64>]) -> (r: Vec<Group>)
    requires
        sizes@.len() == pcts@.len(),
    ensures
        groups_spec(
            Seq::new(
                sizes@.len(),
                |i: int|
                    match pcts@[i] {
                        Some(p) => Some((sizes@[i], p)),
                        None => None,
                    },
            ),
            r@,
        ),
{
    let mut keys: Vec<Option<(u64, i64)>> = Vec::new();
    for i in 0..sizes.len()
        invariant
            sizes@.len() == pcts@.len(),
            keys@ == Seq::new(
                i as nat,
                |t: int|
                    match pcts@[t] {
                        Some(p) => Some((sizes@[t], p)),
                        None => None,
                    },
            ),
    {
        let k = match pcts[i] {
            Some(p) => Some((sizes[i], p)),
            None => None,
        };
        keys.push(k);
        assert(keys@ =~= Seq::new(
            (i + 1) as nat,
            |t: int|
                match pcts@[t] {
                    Some(p) => Some((sizes@[t], p)),
                    None => None,
                },
        ));
    }
    group_keys(keys.as_slice())
}

/// The cells of the MPC sweep: rows grouped by set size alone (each group
/// carries percentage `0`).
pub fn size_groups(sizes: &[u64]) -> (r: Vec<Group>)
    ensures
        groups_spec(Seq::new(sizes@.len(), |i: int| Some((sizes@[i], 0i64))), r@),
{
    let mut keys: Vec<Option<(u64, i64)>> = Vec::new();
    for i in 0..sizes.len()
        invariant
            keys@ == Seq::new(i as nat, |t: int| Some((sizes@[t], 0i64))),
    {
        keys.push(Some((sizes[i], 0i64)));
        assert(keys@ =~= Seq::new((i + 1) as nat, |t: int| Some((sizes@[t], 0i64))));
    }
    group_keys(keys.as_slice())
}

/// `(set_size, run, index)` in lexicographic order: the order of a stable
/// sort by `(set_size, run)`.
pub open spec fn run_before(sizes: Seq<u64>, runs: Seq<u64>, i: usize, j: usize) -> bool {
    sizes[i as int] < sizes[j as int] || (sizes[i as int] == sizes[j as int] && (runs[i as int]
        < runs[j as int] || (runs[i as int] == runs[j as int] && i < j)))
}

/// The order the MPC rows are rewritten in: every row once, sorted by set
/// size then run, rows with equal keys in file order.
pub fn mpc_order(sizes: &[u64], runs: &[u64]) -> (r: Vec<usize>)
    requires
        sizes@.len() == runs@.len(),
    ensures
        r@.len() == sizes@.len(),
        forall|k: int| 0 <= k < r@.len() ==> #[trigger] r@[k] < sizes@.len(),
        forall|a: int, b: int|
            0 <= a < b < r@.len() ==> run_before(sizes@, runs@, #[trigger] r@[a], #[trigger] r@[b]),
{
    let mut r: Vec<usize> = Vec::new();
    for i in 0..sizes.len()
        invariant
            sizes@.len() == runs@.len(),
            r@.len() == i,
            forall|k: int| 0 <= k < r@.len() ==> #[trigger] r@[k] < i,
            forall|a: int, b: int|
                0 <= a < b < r@.len() ==> run_before(
                    sizes@,
                    runs@,
                    #[trigger] r@[a],
                    #[trigger] r@[b],
                ),
    {
        let mut p: usize = 0;
        while p < r.len() && (sizes[r[p]] < sizes[i] || (sizes[r[p]] == sizes[i] && runs[r[p]]
            <= runs[i]))
            invariant
                p <= r@.len(),
                sizes@.len() == runs@.len(),
                forall|k: int| 0 <= k < r@.len() ==> #[trigger] r@[k] < i,
                i < sizes@.len(),
                forall|q: int| 0 <= q < p ==> run_before(sizes@, runs@, #[trigger] r@[q], i),
            decreases r@.len() - p,
        {
            p = p + 1;
        }
        let ghost old_r = r@;
        proof {
            if p < old_r.len() {
                assert(old_r[p as int] < i);
                assert(run_before(sizes@, runs@, i, old_r[p as int]));
            }
        }
        r.insert(p, i);
        proof {
            let n = r@;
            assert(n == old_r.insert(p as int, i));
            assert forall|k: int| 0 <= k < n.len() implies #[trigger] n[k] < i + 1 by {
                if k < p {
                    assert(n[k] == old_r[k]);
                } else if k > p {
                    assert(n[k] == old_r[k - 1]);
                }
            }
            assert forall|a: int, b: int| 0 <= a < b < n.len() implies run_before(
                sizes@,
                runs@,
                #[trigger] n[a],
                #[trigger] n[b],
            ) by {
                if b < p {
                    assert(n[a] == old_r[a] && n[b] == old_r[b]);
                } else if b == p {
                    assert(n[a] == old_r[a]);
                } else if a < p {
                    assert(n[a] == old_r[a] && n[b] == old_r[b - 1]);
                    if b - 1 > p {
                        assert(run_before(sizes@, runs@, old_r[p as int], old_r[b - 1]));
                    }
                } else if a == p {
                    assert(n[b] == old_r[b - 1]);
                    if b - 1 > p {
                        assert(run_before(sizes@, runs@, old_r[p as int], old_r[b - 1]));
                    }
                } else {
                    assert(n[a] == old_r[a - 1] && n[b] == old_r[b - 1]);
                }
            }
        }
    }
    r
}

} // verus!
