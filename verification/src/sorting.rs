//! Sorting small integer lists, and writing them as separated decimal lists.
use vstd::prelude::*;

use crate::text::{append_chars, decimal, decimal_chars};

verus! {

broadcast use vstd::seq_lib::group_to_multiset_ensures;

pub open spec fn sorted_desc(s: Seq<usize>) -> bool {
    forall|i: int, j: int| 0 <= i < j < s.len() ==> s[i] >= s[j]
}

pub open spec fn strictly_increasing(s: Seq<usize>) -> bool {
    forall|i: int, j: int| 0 <= i < j < s.len() ==> s[i] < s[j]
}

/// The one non-increasing arrangement of `values`.
pub open spec fn sorted_desc_of(values: Seq<usize>) -> Seq<usize> {
    choose|s: Seq<usize>| sorted_desc(s) && s.to_multiset() == values.to_multiset()
}

/// Two non-increasing sequences with the same elements are equal.
pub proof fn lemma_sorted_desc_unique(a: Seq<usize>, b: Seq<usize>)
    requires
        sorted_desc(a),
        sorted_desc(b),
        a.to_multiset() == b.to_multiset(),
    ensures
        a == b,
{
    let geq = |x: usize, y: usize| x >= y;
    assert(vstd::relations::total_ordering(geq));
    assert(vstd::relations::sorted_by(a, geq)) by {
        assert forall|i: int, j: int| 0 <= i < j < a.len() implies #[trigger] geq(a[i], a[j]) by {}
    }
    assert(vstd::relations::sorted_by(b, geq)) by {
        assert forall|i: int, j: int| 0 <= i < j < b.len() implies #[trigger] geq(b[i], b[j]) by {}
    }
    vstd::seq_lib::lemma_sorted_unique(a, b, geq);
}

/// `values` in non-increasing order.
pub fn sort_desc(values: &[usize]) -> (r: Vec<usize>)
    ensures
        sorted_desc(r@),
        r@.to_multiset() == values@.to_multiset(),
        r@ == sorted_desc_of(values@),
{
    let mut r: Vec<usize> = Vec::new();
    for i in 0..values.len()
        invariant
            sorted_desc(r@),
            r@.to_multiset() == values@.take(i as int).to_multiset(),
    {
        let x = values[i];
        let mut p: usize = 0;
        while p < r.len() && r[p] >= x
            invariant
                p <= r.len(),
                forall|k: int| 0 <= k < p ==> r@[k] >= x,
            decreases r.len() - p,
        {
            p = p + 1;
        }
        let ghost old_r = r@;
        r.insert(p, x);
        proof {
            assert(r@ == old_r.insert(p as int, x));
            assert(values@.take(i + 1) == values@.take(i as int).push(x));
            assert(values@.take(i as int).push(x) == values@.take(i as int).insert(i as int, x));
            assert forall|a: int, b: int| 0 <= a < b < r@.len() implies r@[a] >= r@[b] by {
                if b < p {
                } else if b == p {
                    assert(r@[a] == old_r[a]);
                } else if a < p {
                    assert(r@[b] == old_r[b - 1]);
                    if b - 1 >= p {
                        assert(old_r[p as int] < x);
                        assert(old_r[p as int] >= old_r[b - 1]);
                    }
                } else if a == p {
                    assert(old_r[p as int] < x);
                    assert(r@[b] == old_r[b - 1]);
                    if b - 1 > p {
                        assert(old_r[p as int] >= old_r[b - 1]);
                    }
                } else {
                    assert(r@[a] == old_r[a - 1]);
                    assert(r@[b] == old_r[b - 1]);
                }
            }
        }
    }
    assert(values@.take(values.len() as int) == values@);
    proof {
        let s = sorted_desc_of(values@);
        assert(sorted_desc(r@) && r@.to_multiset() == values@.to_multiset());
        lemma_sorted_desc_unique(r@, s);
    }
    r
}

/// `values` sorted ascending with duplicates removed.
pub fn sorted_unique(values: &[usize]) -> (r: Vec<usize>)
    ensures
        strictly_increasing(r@),
        r@.to_set() == values@.to_set(),
{
    let mut r: Vec<usize> = Vec::new();
    for i in 0..values.len()
        invariant
            strictly_increasing(r@),
            r@.to_set() == values@.take(i as int).to_set(),
    {
        let x = values[i];
        let mut p: usize = 0;
        while p < r.len() && r[p] < x
            invariant
                p <= r.len(),
                forall|k: int| 0 <= k < p ==> r@[k] < x,
            decreases r.len() - p,
        {
            p = p + 1;
        }
        assert(values@.take(i + 1) == values@.take(i as int).push(x));
        if p < r.len() && r[p] == x {
            assert(r@.to_set() =~= values@.take(i + 1).to_set()) by {
                assert(r@.contains(x)) by {
                    assert(r@[p as int] == x);
                }
                assert forall|e: usize| #[trigger] values@.take(i + 1).contains(e) <==> (
                values@.take(i as int).contains(e) || e == x) by {
                    vstd::seq_lib::lemma_seq_contains_after_push(values@.take(i as int), x, e);
                }
            }
        } else {
            let ghost old_r = r@;
            r.insert(p, x);
            proof {
                assert(r@ == old_r.insert(p as int, x));
                assert forall|e: usize| #[trigger] r@.contains(e) <==> (old_r.contains(e) || e
                    == x) by {
                    if r@.contains(e) {
                        let k = choose|k: int| 0 <= k < r@.len() && r@[k] == e;
                        if k < p {
                            assert(old_r[k] == e);
                        } else if k > p {
                            assert(old_r[k - 1] == e);
                        }
                    }
                    if old_r.contains(e) {
                        let k = choose|k: int| 0 <= k < old_r.len() && old_r[k] == e;
                        if k < p {
                            assert(r@[k] == e);
                        } else {
                            assert(r@[k + 1] == e);
                        }
                    }
                    if e == x {
                        assert(r@[p as int] == x);
                    }
                }
                assert forall|e: usize| #[trigger] values@.take(i + 1).contains(e) <==> (
                values@.take(i as int).contains(e) || e == x) by {
                    vstd::seq_lib::lemma_seq_contains_after_push(values@.take(i as int), x, e);
                }
                assert forall|e: usize| r@.to_set().contains(e) == values@.take(i + 1).to_set().contains(e) by {
                    assert(old_r.to_set().contains(e) == values@.take(i as int).to_set().contains(e));
                }
                assert(r@.to_set() =~= values@.take(i + 1).to_set());
                assert forall|a: int, b: int| 0 <= a < b < r@.len() implies r@[a] < r@[b] by {
                    if b < p {
                    } else if b == p {
                        assert(r@[a] == old_r[a]);
                    } else if a < p {
                        assert(r@[b] == old_r[b - 1]);
                        if b - 1 >= p {
                            assert(old_r[p as int] > x);
                            assert(old_r[p as int] <= old_r[b - 1]);
                        }
                    } else if a == p {
                        assert(old_r[p as int] > x);
                        assert(r@[b] == old_r[b - 1]);
                        if b - 1 > p {
                            assert(old_r[p as int] < old_r[b - 1]);
                        }
                    } else {
                        assert(r@[a] == old_r[a - 1]);
                        assert(r@[b] == old_r[b - 1]);
                    }
                }
            }
        }
    }
    assert(values@.take(values.len() as int) == values@);
    r
}

/// The pieces joined with the separator text `sep`.
pub open spec fn join_with(pieces: Seq<Seq<char>>, sep: Seq<char>) -> Seq<char>
    decreases pieces.len(),
{
    if pieces.len() == 0 {
        Seq::empty()
    } else if pieces.len() == 1 {
        pieces[0]
    } else {
        join_with(pieces.drop_last(), sep) + sep + pieces.last()
    }
}

pub open spec fn decimals(values: Seq<usize>) -> Seq<Seq<char>> {
    values.map_values(|v: usize| decimal(v as nat))
}

/// The decimal numerals of `values`, in order, separated by `sep`.
pub fn join_decimals(values: &[usize], sep: &[char]) -> (r: Vec<char>)
    ensures
        r@ == join_with(decimals(values@), sep@),
{
    let mut r: Vec<char> = Vec::new();
    for i in 0..values.len()
        invariant
            r@ == join_with(decimals(values@.take(i as int)), sep@),
    {
        if i > 0 {
            append_chars(&mut r, sep);
        }
        let d = decimal_chars(values[i] as u64);
        append_chars(&mut r, d.as_slice());
        proof {
            let ds = decimals(values@.take(i + 1));
            assert(ds.drop_last() =~= decimals(values@.take(i as int)));
            assert(ds.last() == decimal(values@[i as int] as nat));
            if i > 0 {
                assert(r@ =~= join_with(ds, sep@));
            } else {
                assert(r@ =~= join_with(ds, sep@));
            }
        }
    }
    assert(values@.take(values.len() as int) == values@);
    r
}

} // verus!
