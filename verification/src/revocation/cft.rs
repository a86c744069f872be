//! The timing record of one CFT-opening scenario, and the link-decrypt
//! filter that keeps the recurring pseudonyms.
use vstd::prelude::*;

use std::collections::HashMap;

use crate::zk_friendly::field::Fe;

verus! {

/// Wall-clock breakdown of one scenario, in the phases the paper reports.
/// Every phase is a duration in nanoseconds.
#[derive(Clone, Copy, Debug)]
pub struct Timing {
    pub n: usize,
    pub n_after_filter: usize,
    pub pid_threshold: Option<usize>,
    pub ngo: u128,
    pub judge: u128,
    pub police: u128,
    pub link: u128,
    pub decrypt: u128,
}

impl Timing {
    /// The scenario's total: linking plus decryption.
    pub fn total(&self) -> (r: u128)
        requires
            self.link + self.decrypt <= u128::MAX,
        ensures
            r == self.link + self.decrypt,
    {
        self.link + self.decrypt
    }
}


/// The pseudonyms as pairs of coordinates.
pub open spec fn pid_values(pids: Seq<(Fe, Fe)>) -> Seq<(nat, nat)> {
    pids.map_values(|p: (Fe, Fe)| (p.0@, p.1@))
}

/// How many of the first `n` entries of `s` equal `x`.
pub open spec fn occurrences(s: Seq<(nat, nat)>, x: (nat, nat), n: nat) -> nat
    decreases n,
{
    if n == 0 {
        0
    } else {
        occurrences(s, x, (n - 1) as nat) + if s[n - 1] == x {
            1nat
        } else {
            0nat
        }
    }
}

/// The indices below `n`, ascending, of the entries that occur at least
/// `min_count` times in all of `s`.
pub open spec fn recurring(s: Seq<(nat, nat)>, min_count: nat, n: nat) -> Seq<usize>
    decreases n,
{
    if n == 0 {
        Seq::empty()
    } else {
        let rest = recurring(s, min_count, (n - 1) as nat);
        if occurrences(s, s[n - 1], s.len()) >= min_count {
            rest.push((n - 1) as usize)
        } else {
            rest
        }
    }
}

/// The bucket a pseudonym is filed under: equal pseudonyms share one.
spec fn pid_digest(p: (Fe, Fe)) -> u64 {
    (p.0.digest_spec() as int * 65536 + p.1.digest_spec() as int) as u64
}

/// The indices filed under `key`, none when there is no such bucket.
spec fn bucket(m: Map<u64, Vec<usize>>, key: u64) -> Seq<usize> {
    if m.contains_key(key) {
        m[key]@
    } else {
        Seq::empty()
    }
}

/// The indices below `n`, ascending, whose digest is `key`.
spec fn with_digest(ds: Seq<u64>, key: u64, n: nat) -> Seq<usize>
    decreases n,
{
    if n == 0 {
        Seq::empty()
    } else {
        let rest = with_digest(ds, key, (n - 1) as nat);
        if ds[n - 1] == key {
            rest.push((n - 1) as usize)
        } else {
            rest
        }
    }
}

/// How many of the first `m` indices in `idxs` point at an entry equal to `x`.
spec fn count_at(s: Seq<(nat, nat)>, idxs: Seq<usize>, x: (nat, nat), m: nat) -> nat
    decreases m,
{
    if m == 0 {
        0
    } else {
        count_at(s, idxs, x, (m - 1) as nat) + if s[idxs[m - 1] as int] == x {
            1nat
        } else {
            0nat
        }
    }
}

proof fn lemma_with_digest_bounds(ds: Seq<u64>, key: u64, n: nat)
    ensures
        forall|u: int|
            0 <= u < with_digest(ds, key, n).len() ==> #[trigger] with_digest(ds, key, n)[u] < n,
        with_digest(ds, key, n).len() <= n,
    decreases n,
{
    if n > 0 {
        lemma_with_digest_bounds(ds, key, (n - 1) as nat);
    }
}

proof fn lemma_count_at_prefix(s: Seq<(nat, nat)>, idxs: Seq<usize>, e: usize, x: (nat, nat), m: nat)
    requires
        m <= idxs.len(),
    ensures
        count_at(s, idxs.push(e), x, m) == count_at(s, idxs, x, m),
    decreases m,
{
    if m > 0 {
        lemma_count_at_prefix(s, idxs, e, x, (m - 1) as nat);
        assert(idxs.push(e)[m - 1] == idxs[m - 1]);
    }
}

/// Counting along a digest bucket counts every equal entry, since equal
/// entries share a digest.
proof fn lemma_bucket_count(s: Seq<(nat, nat)>, ds: Seq<u64>, key: u64, x: (nat, nat), n: nat)
    requires
        n <= s.len(),
        n <= ds.len(),
        n <= usize::MAX,
        forall|j: int| 0 <= j < n && s[j] == x ==> ds[j] == key,
    ensures
        count_at(s, with_digest(ds, key, n), x, with_digest(ds, key, n).len())
            == occurrences(s, x, n),
    decreases n,
{
    if n > 0 {
        let m = (n - 1) as nat;
        lemma_bucket_count(s, ds, key, x, m);
        let prev = with_digest(ds, key, m);
        if ds[m as int] == key {
            lemma_count_at_prefix(s, prev, m as usize, x, prev.len());
            assert(prev.push(m as usize)[prev.len() as int] == m as usize);
        }
    }
}

/// The recurring filter keeps exactly the entries whose pseudonym occurs at
/// least `min_count` times in the whole batch, each once, in ascending order.
pub proof fn lemma_recurring_exact(s: Seq<(nat, nat)>, min_count: nat, n: nat)
    requires
        n <= s.len(),
        n <= usize::MAX,
    ensures
        forall|j: int|
            0 <= j < recurring(s, min_count, n).len() ==> #[trigger] recurring(s, min_count, n)[j] < n,
        forall|a: int, b: int|
            0 <= a < b < recurring(s, min_count, n).len() ==> #[trigger] recurring(s, min_count, n)[a]
                < #[trigger] recurring(s, min_count, n)[b],
        forall|i: int|
            0 <= i < n ==> (#[trigger] recurring(s, min_count, n).contains(i as usize) <==> occurrences(
                s,
                s[i],
                s.len(),
            ) >= min_count),
    decreases n,
{
    if n > 0 {
        let m = (n - 1) as nat;
        lemma_recurring_exact(s, min_count, m);
        let rest = recurring(s, min_count, m);
        let r = recurring(s, min_count, n);
        assert((m as usize) as int == m);
        assert forall|i: int| 0 <= i < n implies (#[trigger] r.contains(i as usize) <==> occurrences(
            s,
            s[i],
            s.len(),
        ) >= min_count) by {
            if i < m {
                if r.contains(i as usize) && !rest.contains(i as usize) {
                    let j = choose|j: int| 0 <= j < r.len() && r[j] == i as usize;
                    assert(j == rest.len());
                }
                if rest.contains(i as usize) {
                    let j = choose|j: int| 0 <= j < rest.len() && rest[j] == i as usize;
                    assert(r[j] == rest[j]);
                }
            } else {
                if rest.contains(i as usize) {
                    let j = choose|j: int| 0 <= j < rest.len() && rest[j] == i as usize;
                    assert(rest[j] < m);
                }
                if occurrences(s, s[i], s.len()) >= min_count {
                    assert(r[rest.len() as int] == i as usize);
                }
            }
        }
        assert forall|a: int, b: int| 0 <= a < b < r.len() implies #[trigger] r[a] < #[trigger] r[b] by {
            if b < rest.len() {
                assert(rest[a] < rest[b]);
            } else {
                assert(rest[a] < m);
            }
        }
        assert forall|j: int| 0 <= j < r.len() implies #[trigger] r[j] < n by {
            if j < rest.len() {
                assert(rest[j] < m);
            }
        }
    }
}

/// The indices, ascending, of the pseudonyms that occur at least
/// `min_count` times among `pids`: the entries link-decrypt keeps.
pub fn retain_recurring(pids: &[(Fe, Fe)], min_count: usize) -> (kept: Vec<usize>)
    ensures
        kept@ == recurring(pid_values(pids@), min_count as nat, pids@.len()),
{
    broadcast use vstd::std_specs::hash::group_hash_axioms;

    let n = pids.len();
    let ghost vs = pid_values(pids@);
    let ghost ds = Seq::new(n as nat, |j: int| pid_digest(pids@[j]));
    let mut buckets: HashMap<u64, Vec<usize>> = HashMap::new();
    for j in 0..n
        invariant
            n == pids@.len(),
            ds == Seq::new(n as nat, |t: int| pid_digest(pids@[t])),
            forall|key: u64| #[trigger] bucket(buckets@, key) == with_digest(ds, key, j as nat),
            forall|t: int| 0 <= t < j ==> buckets@.contains_key(#[trigger] ds[t]),
    {
        let key = pids[j].0.digest() * 65536 + pids[j].1.digest();
        assert(key == ds[j as int]);
        let ghost before = buckets@;
        assert(bucket(before, key) == with_digest(ds, key, j as nat));
        let mut b = match buckets.remove(&key) {
            Some(b) => b,
            None => Vec::new(),
        };
        assert(b@ =~= with_digest(ds, key, j as nat));
        b.push(j);
        buckets.insert(key, b);
        proof {
            assert(buckets@ == before.remove(key).insert(key, b));
            assert forall|k: u64| #[trigger] bucket(buckets@, k) == with_digest(ds, k, (j + 1) as nat) by {
                assert(bucket(before, k) == with_digest(ds, k, j as nat));
                if k != key {
                    assert(ds[j as int] != k);
                }
            }
            assert forall|t: int| 0 <= t < j + 1 implies buckets@.contains_key(#[trigger] ds[t]) by {
                if t < j {
                    assert(before.contains_key(ds[t]));
                }
            }
        }
    }
    let mut kept: Vec<usize> = Vec::new();
    for i in 0..n
        invariant
            n == pids@.len(),
            vs == pid_values(pids@),
            ds == Seq::new(n as nat, |t: int| pid_digest(pids@[t])),
            forall|key: u64| #[trigger] bucket(buckets@, key) == with_digest(ds, key, n as nat),
            forall|t: int| 0 <= t < n ==> buckets@.contains_key(#[trigger] ds[t]),
            kept@ == recurring(vs, min_count as nat, i as nat),
    {
        let key = pids[i].0.digest() * 65536 + pids[i].1.digest();
        assert(key == ds[i as int]);
        assert(buckets@.contains_key(ds[i as int]));
        let c: usize = match buckets.get(&key) {
            Some(b) => {
                let ghost bs = b@;
                assert(bucket(buckets@, key) == with_digest(ds, key, n as nat));
                assert(bs == with_digest(ds, key, n as nat));
                proof {
                    lemma_with_digest_bounds(ds, key, n as nat);
                }
                let mut c: usize = 0;
                let mut t: usize = 0;
                while t < b.len()
                    invariant
                        n == pids@.len(),
                        vs == pid_values(pids@),
                        i < n,
                        bs == b@,
                        forall|u: int| 0 <= u < bs.len() ==> #[trigger] bs[u] < n,
                        t <= bs.len(),
                        c <= t,
                        c == count_at(vs, bs, vs[i as int], t as nat),
                    decreases b.len() - t,
                {
                    let e = b[t];
                    assert(bs[t as int] < n);
                    if pids[e].0.same_value(&pids[i].0) && pids[e].1.same_value(&pids[i].1) {
                        c = c + 1;
                    }
                    t = t + 1;
                }
                proof {
                    assert forall|j: int| 0 <= j < n && vs[j] == vs[i as int] implies ds[j] == key by {
                        Fe::lemma_equal_digest(pids@[j].0, pids@[i as int].0);
                        Fe::lemma_equal_digest(pids@[j].1, pids@[i as int].1);
                    }
                    lemma_bucket_count(vs, ds, key, vs[i as int], n as nat);
                }
                c
            },
            None => {
                proof {
                    assert(false);
                }
                0
            },
        };
        if c >= min_count {
            kept.push(i);
        }
    }
    kept
}

} // verus!
