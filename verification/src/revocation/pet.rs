//! The PET side of the MP-SPDZ predicate matrix: blinded pairwise
//! differences of the CFTs, the authorities' partial decryptions, the
//! plaintext-equality inputs `M'` they combine into, and the integrity check
//! of the CFTs the MPC flags.
use vstd::prelude::*;

use crate::babyjub::{base8_spec, bj_add, bj_mul, bj_sub, dl, known, neg_scalar, order, Point, Scalar};
use crate::revocation::link::{
    cong, key_view, lemma_cong_add, lemma_cong_mod, lemma_cong_mul, lemma_cong_neg, lemma_cong_sub,
    AuthorityScalars,
};
use crate::revocation::mpc::row_start;
use crate::zk_friendly::field::{poseidon, poseidon_of, values, Fe};

verus! {

/// One CFT of the PET experiment; its `C4` is the Poseidon binding
/// `poseidon(ID.x, ID.y, t, D2.x, D2.y)`.
#[derive(Clone, Copy, Debug)]
pub struct PetEntry {
    pub c1: Point,
    pub c2: Point,
    pub c3: Point,
    pub c4: Fe,
    pub t: Scalar,
}

/// Encrypts `id` under the aggregate key `pk_ag` with randomness `r1`,
/// `r2`, and binds it to `t` and `D2 = r2·pk_ag`.
pub fn encrypt_bound(id: &Point, pk_ag: &Point, r1: &Scalar, r2: &Scalar, t: &Scalar) -> (e: PetEntry)
    ensures
        e.c1@ == bj_mul(base8_spec(), r1@),
        e.c2@ == bj_mul(base8_spec(), r2@),
        e.c3@ == bj_add(id@, bj_mul(pk_ag@, r1@)),
        e.t == *t,
        e.c4@ == poseidon_of(
            seq![id@.0, id@.1, t@, bj_mul(pk_ag@, r2@).0, bj_mul(pk_ag@, r2@).1],
        ),
        dl(e.c1@, r1@),
        known(e.c1@),
        known(e.c3@),
        forall|u: nat, key: nat|
            #![trigger dl(id@, u), dl(pk_ag@, key)]
            known(id@) && known(pk_ag@) && dl(id@, u) && dl(pk_ag@, key) ==> dl(
                e.c3@,
                (u + (key * r1@) % order()) % order(),
            ),
{
    let d2 = pk_ag.mul(r2);
    let blind = pk_ag.mul(r1);
    let c3 = id.add(&blind);
    proof {
        assert forall|u: nat, key: nat|
            #![trigger dl(id@, u), dl(pk_ag@, key)]
            known(id@) && known(pk_ag@) && dl(id@, u) && dl(pk_ag@, key) implies dl(
                c3@,
                (u + (key * r1@) % order()) % order(),
            ) by {
            assert(dl(blind@, (key * r1@) % order()));
        }
    }
    PetEntry {
        c1: Point::base8().mul(r1),
        c2: Point::base8().mul(r2),
        c3,
        c4: binding(id, t, &d2),
        t: *t,
    }
}

/// The slot of `(i, j)`, `i <= j`, in the flat upper triangle of an
/// `n × n` matrix.
pub open spec fn slot(n: int, i: int, j: int) -> int {
    row_start(n, i) + (j - i)
}

/// `(a − b)·k`.
pub open spec fn blinded(a: (nat, nat), b: (nat, nat), k: nat) -> (nat, nat) {
    bj_mul(bj_sub(a, b), k)
}

/// The blinded differences `((C1ᵢ − C1ⱼ)·bᵢⱼ, (C3ᵢ − C3ⱼ)·bᵢⱼ)` of the
/// pairs `i <= j`, row after row, each pair with its own blinding factor.
pub fn blinded_differences(entries: &[PetEntry], blinds: &[Scalar]) -> (r: (Vec<Point>, Vec<Point>))
    requires
        blinds@.len() == row_start(entries@.len() as int, entries@.len() as int),
    ensures
        r.0@.len() == blinds@.len(),
        r.1@.len() == blinds@.len(),
        forall|i: int, j: int|
            #![trigger slot(entries@.len() as int, i, j)]
            0 <= i <= j < entries@.len() ==> {
                let s = slot(entries@.len() as int, i, j);
                &&& r.0@[s]@ == blinded(entries@[i].c1@, entries@[j].c1@, blinds@[s]@)
                &&& r.1@[s]@ == blinded(entries@[i].c3@, entries@[j].c3@, blinds@[s]@)
            },
{
    let n = entries.len();
    let ghost nn = n as int;
    let mut c1: Vec<Point> = Vec::new();
    let mut c3: Vec<Point> = Vec::new();
    let mut i: usize = 0;
    while i < n
        invariant
            n == entries@.len(),
            nn == n,
            blinds@.len() == row_start(nn, nn),
            i <= n,
            c1@.len() == row_start(nn, i as int),
            c3@.len() == c1@.len(),
            forall|a: int, b: int|
                #![trigger slot(nn, a, b)]
                0 <= a < i && a <= b < n ==> {
                    let s = slot(nn, a, b);
                    &&& c1@[s]@ == blinded(entries@[a].c1@, entries@[b].c1@, blinds@[s]@)
                    &&& c3@[s]@ == blinded(entries@[a].c3@, entries@[b].c3@, blinds@[s]@)
                },
        decreases n - i,
    {
        proof {
            crate::revocation::mpc::lemma_row_start_monotone(nn, i as int + 1, nn);
        }
        let mut j: usize = i;
        while j < n
            invariant
                n == entries@.len(),
                nn == n,
                blinds@.len() == row_start(nn, nn),
                i < n,
                i <= j <= n,
                row_start(nn, i as int + 1) <= row_start(nn, nn),
                row_start(nn, i as int + 1) == row_start(nn, i as int) + (nn - i),
                c1@.len() == row_start(nn, i as int) + (j - i),
                c3@.len() == c1@.len(),
                forall|a: int, b: int|
                    #![trigger slot(nn, a, b)]
                    0 <= a <= i && a <= b < n && (a < i || b < j) ==> {
                        let s = slot(nn, a, b);
                        &&& c1@[s]@ == blinded(entries@[a].c1@, entries@[b].c1@, blinds@[s]@)
                        &&& c3@[s]@ == blinded(entries@[a].c3@, entries@[b].c3@, blinds@[s]@)
                    },
            decreases n - j,
        {
            let s = c1.len();
            proof {
                lemma_slot_before(nn, i as int, j as int, nn, nn);
            }
            let b = &blinds[s];
            let ghost c1_old = c1@;
            let ghost c3_old = c3@;
            c1.push(entries[i].c1.sub(&entries[j].c1).mul(b));
            c3.push(entries[i].c3.sub(&entries[j].c3).mul(b));
            proof {
                assert forall|a: int, bb: int|
                    #![trigger slot(nn, a, bb)]
                    0 <= a <= i && a <= bb < n && (a < i || bb < j + 1) implies {
                        let s2 = slot(nn, a, bb);
                        &&& c1@[s2]@ == blinded(entries@[a].c1@, entries@[bb].c1@, blinds@[s2]@)
                        &&& c3@[s2]@ == blinded(entries@[a].c3@, entries@[bb].c3@, blinds@[s2]@)
                    } by {
                    let s2 = slot(nn, a, bb);
                    if a < i || bb < j {
                        lemma_slot_before(nn, a, bb, i as int, j as int);
                        assert(c1@[s2] == c1_old[s2]);
                        assert(c3@[s2] == c3_old[s2]);
                    } else {
                        assert(s2 == s);
                    }
                }
            }
            j = j + 1;
        }
        i = i + 1;
    }
    (c1, c3)
}

/// Slots of pairs before `(i, j)` in row order lie below `(i, j)`'s.
proof fn lemma_slot_before(n: int, a: int, b: int, i: int, j: int)
    requires
        0 <= a <= i,
        a <= b < n,
        i <= j <= n,
        a < i || b < j,
    ensures
        0 <= slot(n, a, b) < row_start(n, i) + (j - i),
{
    crate::revocation::mpc::lemma_row_start_monotone(n, 0, a);
    if a < i {
        crate::revocation::mpc::lemma_row_start_monotone(n, a, i);
    }
}

/// One authority's partial decryption: every point times its key share.
pub fn partial_decrypt(points: &[Point], sk: &Scalar) -> (r: Vec<Point>)
    ensures
        r@.len() == points@.len(),
        forall|i: int| 0 <= i < points@.len() ==> (#[trigger] r@[i])@ == bj_mul(points@[i]@, sk@),
{
    let mut r: Vec<Point> = Vec::new();
    for i in 0..points.len()
        invariant
            r@.len() == i,
            forall|j: int| 0 <= j < i ==> (#[trigger] r@[j])@ == bj_mul(points@[j]@, sk@),
    {
        r.push(points[i].mul(sk));
    }
    r
}

/// `M' = C3ᵇ − (police + judge + NGO)`, slot by slot.
pub open spec fn m_prime(c3b: (nat, nat), police: (nat, nat), judge: (nat, nat), ngo: (nat, nat)) -> (
    nat,
    nat,
) {
    bj_sub(c3b, bj_add(bj_add(police, judge), ngo))
}

/// Subtracts the fully decrypted `C1` differences from the blinded `C3`
/// differences.
pub fn combine(c3b: &[Point], police: &[Point], judge: &[Point], ngo: &[Point]) -> (r: Vec<Point>)
    requires
        police@.len() == c3b@.len(),
        judge@.len() == c3b@.len(),
        ngo@.len() == c3b@.len(),
    ensures
        r@.len() == c3b@.len(),
        forall|i: int|
            0 <= i < c3b@.len() ==> (#[trigger] r@[i])@ == m_prime(
                c3b@[i]@,
                police@[i]@,
                judge@[i]@,
                ngo@[i]@,
            ),
{
    let mut r: Vec<Point> = Vec::new();
    for i in 0..c3b.len()
        invariant
            police@.len() == c3b@.len(),
            judge@.len() == c3b@.len(),
            ngo@.len() == c3b@.len(),
            r@.len() == i,
            forall|j: int|
                0 <= j < i ==> (#[trigger] r@[j])@ == m_prime(
                    c3b@[j]@,
                    police@[j]@,
                    judge@[j]@,
                    ngo@[j]@,
                ),
    {
        r.push(c3b[i].sub(&police[i].add(&judge[i]).add(&ngo[i])));
    }
    r
}

/// The `M'` of the pair `(i, j)` under blinding factor `k`.
pub open spec fn pet_value(ei: PetEntry, ej: PetEntry, keys: (nat, nat, nat), k: nat) -> (nat, nat) {
    let c1b = blinded(ei.c1@, ej.c1@, k);
    m_prime(blinded(ei.c3@, ej.c3@, k), bj_mul(c1b, keys.0), bj_mul(c1b, keys.1), bj_mul(c1b, keys.2))
}

/// The MP-SPDZ inputs: `M'` of every pair `i <= j`, row after row.
pub fn pet_inputs(entries: &[PetEntry], keys: &AuthorityScalars, blinds: &[Scalar]) -> (m: Vec<Point>)
    requires
        blinds@.len() == row_start(entries@.len() as int, entries@.len() as int),
    ensures
        m@.len() == blinds@.len(),
        forall|i: int, j: int|
            #![trigger slot(entries@.len() as int, i, j)]
            0 <= i <= j < entries@.len() ==> m@[slot(entries@.len() as int, i, j)]@ == pet_value(
                entries@[i],
                entries@[j],
                key_view(keys),
                blinds@[slot(entries@.len() as int, i, j)]@,
            ),
{
    let (c1b, c3b) = blinded_differences(entries, blinds);
    let police = partial_decrypt(c1b.as_slice(), &keys.police);
    let judge = partial_decrypt(c1b.as_slice(), &keys.judge);
    let ngo = partial_decrypt(c1b.as_slice(), &keys.ngo);
    let m = combine(c3b.as_slice(), police.as_slice(), judge.as_slice(), ngo.as_slice());
    proof {
        let n = entries@.len() as int;
        assert forall|i: int, j: int|
            #![trigger slot(n, i, j)]
            0 <= i <= j < n implies m@[slot(n, i, j)]@ == pet_value(
                entries@[i],
                entries@[j],
                key_view(keys),
                blinds@[slot(n, i, j)]@,
            ) by {
            lemma_slot_before(n, i, j, n, n);
            let s = slot(n, i, j);
            assert(m@[s]@ == m_prime(c3b@[s]@, police@[s]@, judge@[s]@, ngo@[s]@));
        }
    }
    m
}

// ---------------------------------------------------------------------------
// Integrity of the flagged CFTs
// ---------------------------------------------------------------------------

/// `C1·police + C1·judge + C1·NGO`, the same for `C2`.
pub open spec fn key_sum(c: (nat, nat), keys: (nat, nat, nat)) -> (nat, nat) {
    bj_add(bj_add(bj_mul(c, keys.0), bj_mul(c, keys.1)), bj_mul(c, keys.2))
}

/// The identity a threshold opening recovers: `C3 − D1`.
pub open spec fn opened_id(e: PetEntry, keys: (nat, nat, nat)) -> (nat, nat) {
    bj_sub(e.c3@, key_sum(e.c1@, keys))
}

/// Whether the opened CFT matches its binding.
pub open spec fn binding_holds(e: PetEntry, keys: (nat, nat, nat)) -> bool {
    let id = opened_id(e, keys);
    let d2 = key_sum(e.c2@, keys);
    poseidon_of(seq![id.0, id.1, e.t@, d2.0, d2.1]) == e.c4@
}

/// The binding `poseidon(ID.x, ID.y, t, D2.x, D2.y)` of an identity, a tag
/// and `D2`.
pub fn binding(id: &Point, t: &Scalar, d2: &Point) -> (r: Fe)
    ensures
        r@ == poseidon_of(seq![id@.0, id@.1, t@, d2@.0, d2@.1]),
{
    let inputs = [id.x, id.y, t.to_field(), d2.x, d2.y];
    assert(values(inputs@) =~= seq![id@.0, id@.1, t@, d2@.0, d2@.1]);
    poseidon(&inputs)
}

/// Threshold-opens one CFT: its identity, and whether its binding holds.
pub fn check_integrity(e: &PetEntry, keys: &AuthorityScalars) -> (r: (bool, Point))
    ensures
        r.0 == binding_holds(*e, key_view(keys)),
        r.1@ == opened_id(*e, key_view(keys)),
        forall|x: nat, z: nat|
            #![trigger dl(e.c1@, x), dl(e.c3@, z)]
            known(e.c1@) && known(e.c3@) && dl(e.c1@, x) && dl(e.c3@, z) ==> dl(
                r.1@,
                threshold_opened_dl(x, z, key_view(keys)),
            ),
{
    let mp = e.c1.mul(&keys.police);
    let mj = e.c1.mul(&keys.judge);
    let mn = e.c1.mul(&keys.ngo);
    let d1a = mp.add(&mj);
    let d1 = d1a.add(&mn);
    let d2 = e.c2.mul(&keys.police).add(&e.c2.mul(&keys.judge)).add(&e.c2.mul(&keys.ngo));
    let id = e.c3.sub(&d1);
    proof {
        let kv = key_view(keys);
        assert forall|x: nat, z: nat|
            #![trigger dl(e.c1@, x), dl(e.c3@, z)]
            known(e.c1@) && known(e.c3@) && dl(e.c1@, x) && dl(e.c3@, z) implies dl(
                id@,
                threshold_opened_dl(x, z, kv),
            ) by {
            assert(dl(mp@, (x * kv.0) % order()));
            assert(dl(mj@, (x * kv.1) % order()));
            assert(dl(mn@, (x * kv.2) % order()));
            assert(dl(d1a@, ((x * kv.0) % order() + (x * kv.1) % order()) % order()));
            assert(dl(d1@, threshold_d1_dl(x, kv)));
        }
    }
    let expected = binding(&id, &e.t, &d2);
    (expected.same_value(&e.c4), id)
}

/// `D1`'s discrete logarithm: `x·police + x·judge + x·ngo`.
pub open spec fn threshold_d1_dl(x: nat, keys: (nat, nat, nat)) -> nat {
    (((x * keys.0) % order() + (x * keys.1) % order()) % order() + (x * keys.2) % order()) % order()
}

/// The opened identity's discrete logarithm: `z − D1`.
pub open spec fn threshold_opened_dl(x: nat, z: nat, keys: (nat, nat, nat)) -> nat {
    (z + neg_scalar(threshold_d1_dl(x, keys))) % order()
}

/// The threshold opening recovers the encrypted identity: if the shares
/// sum to the aggregate secret, `C1 = x·Base8` and
/// `C3 = u·Base8 + x·(main·Base8)`, the opened point is `u·Base8`.
pub proof fn lemma_threshold_opening_recovers(u: nat, x: nat, main: nat, keys: (nat, nat, nat))
    requires
        u < order(),
        (keys.0 + keys.1 + keys.2) % order() == main % order(),
    ensures
        threshold_opened_dl(x, (u + (main * x) % order()) % order(), keys) == u,
{
    let n = order() as int;
    let (ui, xi, mi) = (u as int, x as int, main as int);
    let (p, j, g) = (keys.0 as int, keys.1 as int, keys.2 as int);
    let z = (u + (main * x) % order()) % order();
    lemma_cong_mod(mi * xi);
    lemma_cong_add(ui, ui, ((main * x) % order()) as int, mi * xi);
    lemma_cong_mod(ui + ((main * x) % order()) as int);
    assert(cong(z as int, ui + mi * xi));
    lemma_cong_mod(xi * p);
    lemma_cong_mod(xi * j);
    lemma_cong_mod(xi * g);
    let a = ((x * keys.0) % order() + (x * keys.1) % order()) % order();
    lemma_cong_add(((x * keys.0) % order()) as int, xi * p, ((x * keys.1) % order()) as int, xi * j);
    lemma_cong_mod(((x * keys.0) % order() + (x * keys.1) % order()) as int);
    lemma_cong_add(a as int, xi * p + xi * j, ((x * keys.2) % order()) as int, xi * g);
    let d = threshold_d1_dl(x, keys);
    lemma_cong_mod((a + (x * keys.2) % order()) as int);
    assert(cong(d as int, xi * p + xi * j + xi * g));
    assert(xi * p + xi * j + xi * g == xi * (p + j + g)) by (nonlinear_arith);
    lemma_cong_mul(xi, xi, p + j + g, mi);
    assert(cong(d as int, mi * xi)) by {
        assert(xi * mi == mi * xi) by (nonlinear_arith);
    }
    vstd::arithmetic::div_mod::lemma_mod_bound((a + (x * keys.2) % order()) as int, n);
    lemma_cong_neg(z as int, d as int);
    lemma_cong_sub(z as int, ui + mi * xi, d as int, mi * xi);
    lemma_cong_mod((z + neg_scalar(d)) as int);
    assert(cong(threshold_opened_dl(x, z, keys) as int, ui));
    vstd::arithmetic::div_mod::lemma_mod_bound((z + neg_scalar(d)) as int, n);
    vstd::arithmetic::div_mod::lemma_small_mod(threshold_opened_dl(x, z, keys), order());
    vstd::arithmetic::div_mod::lemma_small_mod(u, order());
}

/// How many of the first `k` CFTs the MPC flagged.
pub open spec fn flagged_count(preds: Seq<bool>, k: nat) -> nat
    decreases k,
{
    if k == 0 {
        0
    } else {
        flagged_count(preds, (k - 1) as nat) + if preds[k - 1] { 1nat } else { 0nat }
    }
}

/// How many of the first `k` flagged CFTs fail their binding.
pub open spec fn failed_count(entries: Seq<PetEntry>, preds: Seq<bool>, keys: (nat, nat, nat), k: nat) -> nat
    decreases k,
{
    if k == 0 {
        0
    } else {
        failed_count(entries, preds, keys, (k - 1) as nat) + if preds[k - 1] && !binding_holds(
            entries[k - 1],
            keys,
        ) {
            1nat
        } else {
            0nat
        }
    }
}

/// The identities of the first `k` flagged CFTs whose binding holds.
pub open spec fn revealed(entries: Seq<PetEntry>, preds: Seq<bool>, keys: (nat, nat, nat), k: nat) -> Set<
    (nat, nat),
>
    decreases k,
{
    if k == 0 {
        Set::empty()
    } else {
        let r = revealed(entries, preds, keys, (k - 1) as nat);
        if preds[k - 1] && binding_holds(entries[k - 1], keys) {
            r.insert(opened_id(entries[k - 1], keys))
        } else {
            r
        }
    }
}

/// The integrity phase reveals at most one identity per flagged CFT whose
/// binding holds: `|revealed| + failed <= checked`.
pub proof fn lemma_revealed_at_most_passed(
    entries: Seq<PetEntry>,
    preds: Seq<bool>,
    keys: (nat, nat, nat),
    k: nat,
)
    ensures
        revealed(entries, preds, keys, k).finite(),
        revealed(entries, preds, keys, k).len() + failed_count(entries, preds, keys, k)
            <= flagged_count(preds, k),
    decreases k,
{
    if k > 0 {
        lemma_revealed_at_most_passed(entries, preds, keys, (k - 1) as nat);
    }
}

/// The coordinates of each point.
pub open spec fn point_views(ps: Seq<Point>) -> Seq<(nat, nat)> {
    ps.map_values(|q: Point| q@)
}

/// The integrity phase: each CFT flagged by the MPC is opened and checked.
/// Returns how many were checked, how many failed, and the distinct
/// identities of those that passed.
pub fn revealed_ids(entries: &[PetEntry], predicates: &[bool], keys: &AuthorityScalars) -> (r: (
    usize,
    usize,
    Vec<Point>,
))
    ensures
        ({
            let m = if entries@.len() <= predicates@.len() {
                entries@.len()
            } else {
                predicates@.len()
            };
            let set = revealed(entries@, predicates@, key_view(keys), m);
            &&& r.0 == flagged_count(predicates@, m)
            &&& r.1 == failed_count(entries@, predicates@, key_view(keys), m)
            &&& point_views(r.2@).to_set() == set
            &&& point_views(r.2@).no_duplicates()
            &&& r.2@.len() == set.len()
        }),
{
    let m = if entries.len() <= predicates.len() {
        entries.len()
    } else {
        predicates.len()
    };
    let ghost kv = key_view(keys);
    let mut checked: usize = 0;
    let mut failed: usize = 0;
    let mut ids: Vec<Point> = Vec::new();
    for k in 0..m
        invariant
            m <= entries@.len(),
            m <= predicates@.len(),
            kv == key_view(keys),
            checked == flagged_count(predicates@, k as nat),
            failed == failed_count(entries@, predicates@, kv, k as nat),
            checked <= k,
            failed <= k,
            point_views(ids@).to_set() == revealed(entries@, predicates@, kv, k as nat),
            point_views(ids@).no_duplicates(),
    {
        let ghost rk = revealed(entries@, predicates@, kv, k as nat);
        let ghost rk1 = revealed(entries@, predicates@, kv, (k + 1) as nat);
        if predicates[k] {
            checked = checked + 1;
            let (ok, id) = check_integrity(&entries[k], keys);
            if ok {
                assert(rk1 == rk.insert(id@));
                let found = contains_point(ids.as_slice(), &id);
                let ghost before = point_views(ids@);
                if !found {
                    ids.push(id);
                    proof {
                        assert(point_views(ids@) =~= before.push(id@));
                        before.lemma_push_to_set_commute(id@);
                        assert(!before.contains(id@)) by {
                            if before.contains(id@) {
                                let a = choose|a: int| 0 <= a < before.len() && before[a] == id@;
                                assert(ids@[a]@ == id@);
                            }
                        }
                        assert(point_views(ids@).no_duplicates()) by {
                            assert forall|a: int, b: int|
                                0 <= a < point_views(ids@).len() && 0 <= b < point_views(ids@).len() && a != b
                                implies point_views(ids@)[a] != point_views(ids@)[b] by {
                                if a < before.len() && b < before.len() {
                                    assert(before[a] != before[b]);
                                } else if a < before.len() {
                                    assert(before.contains(before[a]));
                                } else if b < before.len() {
                                    assert(before.contains(before[b]));
                                }
                            }
                        }
                    }
                } else {
                    proof {
                        let a = choose|a: int| 0 <= a < ids@.len() && (#[trigger] ids@[a])@ == id@;
                        assert(before[a] == id@);
                        assert(before.to_set().contains(id@));
                        assert(rk1 =~= rk);
                    }
                }
            } else {
                failed = failed + 1;
                assert(rk1 == rk);
            }
        } else {
            assert(rk1 == rk);
        }
    }
    proof {
        point_views(ids@).unique_seq_to_set();
    }
    (checked, failed, ids)
}

/// Whether a point with the same coordinates as `p` is in `ids`.
fn contains_point(ids: &[Point], p: &Point) -> (r: bool)
    ensures
        r <==> exists|a: int| 0 <= a < ids@.len() && (#[trigger] ids@[a])@ == p@,
{
    for a in 0..ids.len()
        invariant
            forall|b: int| 0 <= b < a ==> (#[trigger] ids@[b])@ != p@,
    {
        if ids[a].same(p) {
            return true;
        }
    }
    false
}

} // verus!
