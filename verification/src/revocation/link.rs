//! Link-decrypt: each authority re-randomises every CFT under its key and a
//! fresh blinding factor, the entries whose pseudonym recurs often enough
//! are kept, and only those are decrypted and checked against C4.
use vstd::prelude::*;

use crate::babyjub::{
    bj_add, bj_mul, bj_sub, dl, known, neg_scalar, order, scalar_inv, sig_view, Point, Scalar, Signature,
};
use crate::revocation::c4::{c4_valid, verify};
use crate::revocation::cft::{lemma_recurring_exact, pid_values, recurring, retain_recurring};
use crate::zk_friendly::field::Fe;

verus! {

/// A CFT in flight through the unlink chain: `C2`, the C4 signature and its
/// tag `t`, and the re-randomised pair `(D1, D3)`.
#[derive(Clone, Copy, Debug)]
pub struct LinkEntry {
    pub c2: Point,
    pub c4: Signature,
    pub t: Scalar,
    pub d1: Point,
    pub d3: Point,
}

/// The three authorities' secret keys.
pub struct AuthorityScalars {
    pub police: Scalar,
    pub judge: Scalar,
    pub ngo: Scalar,
}

/// One authority's re-randomisation: `D3 ← (D3 − sk·D1)·k`, `D1 ← k·D1`.
pub open spec fn linked(e: LinkEntry, sk: nat, k: nat, r: LinkEntry) -> bool {
    &&& r.c2 == e.c2
    &&& r.c4 == e.c4
    &&& r.t == e.t
    &&& r.d1@ == bj_mul(e.d1@, k)
    &&& r.d3@ == bj_mul(bj_sub(e.d3@, bj_mul(e.d1@, sk)), k)
}

/// One authority's pass over every entry.
pub fn link_step(entries: &[LinkEntry], sk: &Scalar, k: &Scalar) -> (r: Vec<LinkEntry>)
    ensures
        r@.len() == entries@.len(),
        forall|i: int| 0 <= i < entries@.len() ==> linked(entries@[i], sk@, k@, #[trigger] r@[i]),
        forall|i: int| 0 <= i < entries@.len() ==> link_tracked(entries@[i], sk@, k@, #[trigger] r@[i]),
{
    let mut r: Vec<LinkEntry> = Vec::new();
    for i in 0..entries.len()
        invariant
            r@.len() == i,
            forall|j: int| 0 <= j < i ==> linked(entries@[j], sk@, k@, #[trigger] r@[j]),
            forall|j: int| 0 <= j < i ==> link_tracked(entries@[j], sk@, k@, #[trigger] r@[j]),
    {
        let e = entries[i];
        let d1 = e.d1;
        let m = d1.mul(sk);
        let diff = e.d3.sub(&m);
        let d3 = diff.mul(k);
        let n = LinkEntry { c2: e.c2, c4: e.c4, t: e.t, d1: d1.mul(k), d3 };
        proof {
            assert forall|x: nat, z: nat|
                #![trigger dl(e.d1@, x), dl(e.d3@, z)]
                known(e.d1@) && known(e.d3@) && dl(e.d1@, x) && dl(e.d3@, z) implies dl(n.d1@, link_dl(x, z, sk@, k@).0)
                    && dl(n.d3@, link_dl(x, z, sk@, k@).1) by {
                assert(dl(m@, (x * sk@) % order()));
                assert(dl(diff@, (z + neg_scalar((x * sk@) % order())) % order()));
            }
            assert(link_tracked(e, sk@, k@, n));
        }
        r.push(n);
    }
    r
}

/// One re-randomisation on discrete logarithms: `(x, z)` of `(D1, D3)`
/// become `(x·k, (z − x·sk)·k)`.
pub open spec fn link_dl(x: nat, z: nat, sk: nat, k: nat) -> (nat, nat) {
    ((x * k) % order(), (((z + neg_scalar((x * sk) % order())) % order()) * k) % order())
}

/// What is known of a linked entry's `D1` and `D3`.
pub open spec fn link_tracked(e: LinkEntry, sk: nat, k: nat, r: LinkEntry) -> bool {
    &&& known(r.d1@)
    &&& known(r.d3@)
    &&& forall|x: nat, z: nat|
        #![trigger dl(e.d1@, x), dl(e.d3@, z)]
        known(e.d1@) && known(e.d3@) && dl(e.d1@, x) && dl(e.d3@, z) ==> dl(r.d1@, link_dl(x, z, sk, k).0)
            && dl(r.d3@, link_dl(x, z, sk, k).1)
}

/// `r` is `p` times `inv`, and the group facts hold of it.
pub open spec fn unblinded(p: (nat, nat), inv: nat, r: Point) -> bool {
    &&& known(r@)
    &&& forall|z: nat| #![trigger dl(p, z)] known(p) && dl(p, z) ==> dl(r@, (z * inv) % order())
}

/// Unblinding on discrete logarithms, by the NGO's, the judge's and then
/// the police's inverse.
pub open spec fn unblind_dl(z: nat, invs: (nat, nat, nat)) -> nat {
    ((((((z * invs.2) % order()) * invs.1) % order()) * invs.0) % order())
}

pub(crate) open spec fn cong(a: int, b: int) -> bool {
    a % (order() as int) == b % (order() as int)
}

pub(crate) proof fn lemma_cong_mod(a: int)
    ensures
        cong(a % (order() as int), a),
{
    vstd::arithmetic::div_mod::lemma_mod_twice(a, order() as int);
}

pub(crate) proof fn lemma_cong_add(a: int, b: int, c: int, d: int)
    requires
        cong(a, b),
        cong(c, d),
    ensures
        cong(a + c, b + d),
{
    vstd::arithmetic::div_mod::lemma_add_mod_noop(a, c, order() as int);
    vstd::arithmetic::div_mod::lemma_add_mod_noop(b, d, order() as int);
}

pub(crate) proof fn lemma_cong_sub(a: int, b: int, c: int, d: int)
    requires
        cong(a, b),
        cong(c, d),
    ensures
        cong(a - c, b - d),
{
    vstd::arithmetic::div_mod::lemma_sub_mod_noop(a, c, order() as int);
    vstd::arithmetic::div_mod::lemma_sub_mod_noop(b, d, order() as int);
}

pub(crate) proof fn lemma_cong_mul(a: int, b: int, c: int, d: int)
    requires
        cong(a, b),
        cong(c, d),
    ensures
        cong(a * c, b * d),
{
    vstd::arithmetic::div_mod::lemma_mul_mod_noop(a, c, order() as int);
    vstd::arithmetic::div_mod::lemma_mul_mod_noop(b, d, order() as int);
}

pub(crate) proof fn lemma_cong_neg(a: int, b: int)
    requires
        0 <= b < order(),
    ensures
        cong(a + neg_scalar(b as nat), a - b),
{
    let n = order() as int;
    vstd::arithmetic::div_mod::lemma_add_mod_noop_right(a, n - b, n);
    vstd::arithmetic::div_mod::lemma_mod_add_multiples_vanish(a - b, n);
}

/// One linking step keeps `(z, x)` in the shape `((u + s·x)·k, x·k)`:
/// from `z ≡ (u + (sk + rest)·x)·m` and `x ≡ x0·m` it gives
/// `z' ≡ (u + rest·x0)·m·k` and `x' ≡ x0·m·k`.
proof fn lemma_link_step_cong(z: nat, x: nat, u: int, x0: int, m: int, sk: nat, rest: int, k: nat)
    requires
        sk < order(),
        cong(z as int, (u + (sk + rest) * x0) * m),
        cong(x as int, x0 * m),
    ensures
        cong(link_dl(x, z, sk, k).1 as int, (u + rest * x0) * (m * k)),
        cong(link_dl(x, z, sk, k).0 as int, x0 * (m * k)),
{
    let n = order() as int;
    let xs = (x * sk) % order();
    lemma_cong_mod((x * sk) as int);
    lemma_cong_mul(x as int, x0 * m, sk as int, sk as int);
    assert(cong(xs as int, x0 * m * sk));
    vstd::arithmetic::div_mod::lemma_mod_bound((x * sk) as int, n);
    lemma_cong_neg(z as int, xs as int);
    let inner = (z + neg_scalar(xs)) % order();
    lemma_cong_mod((z + neg_scalar(xs)) as int);
    lemma_cong_sub(z as int, (u + (sk + rest) * x0) * m, xs as int, x0 * m * sk);
    assert((u + (sk + rest) * x0) * m - x0 * m * sk == (u + rest * x0) * m) by (nonlinear_arith);
    assert(cong(inner as int, (u + rest * x0) * m));
    lemma_cong_mul(inner as int, (u + rest * x0) * m, k as int, k as int);
    lemma_cong_mod((inner * k) as int);
    assert((u + rest * x0) * m * k == (u + rest * x0) * (m * k)) by (nonlinear_arith);
    lemma_cong_mul(x as int, x0 * m, k as int, k as int);
    lemma_cong_mod((x * k) as int);
    assert(x0 * m * k == x0 * (m * k)) by (nonlinear_arith);
}

/// Link-decrypt recovers the encrypted identity: if `C3 = u·Base8 + x·pk_ag`
/// with `pk_ag = (sp + sj + sn)·Base8` and `C1 = x·Base8`, then after the
/// police, the judge and the NGO link with blinding factors `kp`, `kj`,
/// `kn`, unblinding `D3` by their inverses gives back `u`.
pub proof fn lemma_link_recovers(
    u: nat,
    x: nat,
    sp: nat,
    sj: nat,
    sn: nat,
    kp: nat,
    kj: nat,
    kn: nat,
    ip: nat,
    ij: nat,
    iq: nat,
)
    requires
        u < order(),
        sp < order(),
        sj < order(),
        sn < order(),
        (ip * kp) % order() == 1,
        (ij * kj) % order() == 1,
        (iq * kn) % order() == 1,
    ensures
        ({
            let z0 = (u + ((((sp + sj) % order() + sn) % order()) * x) % order()) % order();
            let l1 = link_dl(x, z0, sp, kp);
            let l2 = link_dl(l1.0, l1.1, sj, kj);
            let l3 = link_dl(l2.0, l2.1, sn, kn);
            unblind_dl(l3.1, (ip, ij, iq)) == u
        }),
{
    let n = order() as int;
    let (ui, xi, spi, sji, sni) = (u as int, x as int, sp as int, sj as int, sn as int);
    let (kpi, kji, kni) = (kp as int, kj as int, kn as int);
    let (ipi, iji, iqi) = (ip as int, ij as int, iq as int);
    let key = ((sp + sj) % order() + sn) % order();
    lemma_cong_mod(spi + sji);
    lemma_cong_add(((sp + sj) % order()) as int, spi + sji, sni, sni);
    lemma_cong_mod(((sp + sj) % order() + sn) as int);
    assert(cong(key as int, spi + sji + sni));
    lemma_cong_mul(key as int, spi + sji + sni, xi, xi);
    lemma_cong_mod((key * x) as int);
    let kx = (key * x) % order();
    lemma_cong_add(ui, ui, kx as int, (spi + sji + sni) * xi);
    let z0 = (u + kx) % order();
    lemma_cong_mod((u + kx) as int);
    assert((ui + (spi + (sji + sni)) * xi) * 1 == ui + (spi + sji + sni) * xi) by (nonlinear_arith);
    assert(cong(z0 as int, (ui + (spi + (sji + sni)) * xi) * 1));
    assert(cong(xi, xi * 1));
    lemma_link_step_cong(z0, x, ui, xi, 1, sp, sji + sni, kp);
    let l1 = link_dl(x, z0, sp, kp);
    lemma_link_step_cong(l1.1, l1.0, ui, xi, 1 * kpi, sj, sni, kj);
    let l2 = link_dl(l1.0, l1.1, sj, kj);
    assert((ui + (sni + 0) * xi) == (ui + sni * xi)) by (nonlinear_arith);
    lemma_link_step_cong(l2.1, l2.0, ui, xi, 1 * kpi * kji, sn, 0, kn);
    let l3 = link_dl(l2.0, l2.1, sn, kn);
    let big = kpi * kji * kni;
    assert((ui + 0 * xi) * (1 * kpi * kji * kni) == ui * big) by (nonlinear_arith)
        requires
            big == kpi * kji * kni,
    ;
    assert(cong(l3.1 as int, ui * big));
    let w1 = (l3.1 * iq) % order();
    lemma_cong_mul(l3.1 as int, ui * big, iqi, iqi);
    lemma_cong_mod((l3.1 * iq) as int);
    lemma_cong_mod(iqi * kni);
    assert(cong(iqi * kni, 1));
    lemma_cong_mul(ui * kpi * kji, ui * kpi * kji, iqi * kni, 1);
    assert(ui * big * iqi == ui * kpi * kji * (iqi * kni)) by (nonlinear_arith)
        requires
            big == kpi * kji * kni,
    ;
    assert(cong(w1 as int, ui * kpi * kji));
    let w2 = (w1 * ij) % order();
    lemma_cong_mul(w1 as int, ui * kpi * kji, iji, iji);
    lemma_cong_mod((w1 * ij) as int);
    lemma_cong_mod(iji * kji);
    lemma_cong_mul(ui * kpi, ui * kpi, iji * kji, 1);
    assert(ui * kpi * kji * iji == ui * kpi * (iji * kji)) by (nonlinear_arith);
    assert(cong(w2 as int, ui * kpi));
    let w3 = (w2 * ip) % order();
    lemma_cong_mul(w2 as int, ui * kpi, ipi, ipi);
    lemma_cong_mod((w2 * ip) as int);
    lemma_cong_mod(ipi * kpi);
    lemma_cong_mul(ui, ui, ipi * kpi, 1);
    assert(ui * kpi * ipi == ui * (ipi * kpi)) by (nonlinear_arith);
    assert(cong(w3 as int, ui));
    vstd::arithmetic::div_mod::lemma_mod_bound((w2 * ip) as int, n);
    vstd::arithmetic::div_mod::lemma_small_mod(w3, order());
    vstd::arithmetic::div_mod::lemma_small_mod(u, order());
}

/// The pseudonyms `D3` of the entries.
pub open spec fn pids_of(entries: Seq<LinkEntry>) -> Seq<(nat, nat)> {
    entries.map_values(|e: LinkEntry| e.d3@)
}

/// The entries at the given indices, in that order.
pub fn select(entries: &[LinkEntry], idx: &[usize]) -> (r: Vec<LinkEntry>)
    requires
        forall|j: int| 0 <= j < idx@.len() ==> #[trigger] idx@[j] < entries@.len(),
    ensures
        r@.len() == idx@.len(),
        forall|j: int| 0 <= j < idx@.len() ==> #[trigger] r@[j] == entries@[idx@[j] as int],
{
    let mut r: Vec<LinkEntry> = Vec::new();
    for j in 0..idx.len()
        invariant
            forall|u: int| 0 <= u < idx@.len() ==> #[trigger] idx@[u] < entries@.len(),
            r@.len() == j,
            forall|u: int| 0 <= u < j ==> #[trigger] r@[u] == entries@[idx@[u] as int],
    {
        r.push(entries[idx[j]]);
    }
    r
}

/// The kept entries: those whose pseudonym occurs at least `min_count`
/// times, in order.
pub fn keep_recurring(entries: &[LinkEntry], min_count: usize) -> (r: (Vec<usize>, Vec<LinkEntry>))
    ensures
        r.0@ == recurring(pid_values_of(entries@), min_count as nat, entries@.len()),
        r.1@.len() == r.0@.len(),
        forall|j: int| 0 <= j < r.0@.len() ==> #[trigger] r.1@[j] == entries@[r.0@[j] as int],
{
    let mut pids: Vec<(Fe, Fe)> = Vec::new();
    for i in 0..entries.len()
        invariant
            pids@.len() == i,
            forall|j: int| 0 <= j < i ==> #[trigger] pids@[j] == (entries@[j].d3.x, entries@[j].d3.y),
    {
        pids.push((entries[i].d3.x, entries[i].d3.y));
    }
    assert(pid_values(pids@) =~= pid_values_of(entries@));
    let kept = retain_recurring(pids.as_slice(), min_count);
    proof {
        lemma_recurring_exact(pid_values_of(entries@), min_count as nat, entries@.len());
    }
    let chosen = select(entries, kept.as_slice());
    (kept, chosen)
}

/// The pseudonyms of the entries as `retain_recurring` compares them.
pub open spec fn pid_values_of(entries: Seq<LinkEntry>) -> Seq<(nat, nat)> {
    entries.map_values(|e: LinkEntry| (e.d3.x@, e.d3.y@))
}

/// The NGO's step on a kept entry: `PID ← D3·k⁻¹`, `D2 ← sk·C2`.
pub open spec fn ngo_opened(e: LinkEntry, inv: nat, sk: nat) -> ((nat, nat), (nat, nat)) {
    (bj_mul(e.d3@, inv), bj_mul(e.c2@, sk))
}

/// The judge's step: `PID ← PID·k⁻¹`, `D2 ← D2 + sk·C2`.
pub open spec fn judge_opened(p: ((nat, nat), (nat, nat)), e: LinkEntry, inv: nat, sk: nat) -> (
    (nat, nat),
    (nat, nat),
) {
    (bj_mul(p.0, inv), bj_add(p.1, bj_mul(e.c2@, sk)))
}

/// The police's step, which yields the identity and `D2`.
pub open spec fn police_opened(p: ((nat, nat), (nat, nat)), e: LinkEntry, inv: nat, sk: nat) -> (
    (nat, nat),
    (nat, nat),
) {
    judge_opened(p, e, inv, sk)
}

/// The coordinates of an `(identity, D2)` pair.
pub open spec fn pair_view(p: (Point, Point)) -> ((nat, nat), (nat, nat)) {
    (p.0@, p.1@)
}

/// The NGO unblinds every kept entry with the inverse of its own blinding
/// factor and starts `D2`.
pub fn unblind_ngo(entries: &[LinkEntry], inv: &Scalar, sk: &Scalar) -> (r: Vec<(Point, Point)>)
    ensures
        r@.len() == entries@.len(),
        forall|i: int|
            0 <= i < entries@.len() ==> pair_view(#[trigger] r@[i]) == ngo_opened(
                entries@[i],
                inv@,
                sk@,
            ),
        forall|i: int| 0 <= i < entries@.len() ==> unblinded(entries@[i].d3@, inv@, (#[trigger] r@[i]).0),
{
    let mut r: Vec<(Point, Point)> = Vec::new();
    for i in 0..entries.len()
        invariant
            r@.len() == i,
            forall|j: int|
                0 <= j < i ==> pair_view(#[trigger] r@[j]) == ngo_opened(entries@[j], inv@, sk@),
            forall|j: int| 0 <= j < i ==> unblinded(entries@[j].d3@, inv@, (#[trigger] r@[j]).0),
    {
        let p = entries[i].d3.mul(inv);
        proof {
            assert(unblinded(entries@[i as int].d3@, inv@, p));
        }
        r.push((p, entries[i].c2.mul(sk)));
    }
    r
}

/// The judge's turn: unblind once more and add its share of `D2`.
pub fn unblind_judge(partial: &[(Point, Point)], entries: &[LinkEntry], inv: &Scalar, sk: &Scalar) -> (r:
    Vec<(Point, Point)>)
    requires
        partial@.len() == entries@.len(),
    ensures
        r@.len() == entries@.len(),
        forall|i: int|
            0 <= i < entries@.len() ==> pair_view(#[trigger] r@[i]) == judge_opened(
                pair_view(partial@[i]),
                entries@[i],
                inv@,
                sk@,
            ),
        forall|i: int| 0 <= i < entries@.len() ==> unblinded(partial@[i].0@, inv@, (#[trigger] r@[i]).0),
{
    let mut r: Vec<(Point, Point)> = Vec::new();
    for i in 0..entries.len()
        invariant
            partial@.len() == entries@.len(),
            r@.len() == i,
            forall|j: int|
                0 <= j < i ==> pair_view(#[trigger] r@[j]) == judge_opened(
                    pair_view(partial@[j]),
                    entries@[j],
                    inv@,
                    sk@,
                ),
            forall|j: int| 0 <= j < i ==> unblinded(partial@[j].0@, inv@, (#[trigger] r@[j]).0),
    {
        let (p, d2) = partial[i];
        let q = p.mul(inv);
        proof {
            assert(unblinded(partial@[i as int].0@, inv@, q));
        }
        r.push((q, d2.add(&entries[i].c2.mul(sk))));
    }
    r
}

/// Why link-decrypt stopped.
#[derive(Debug, PartialEq, Eq)]
pub enum LinkError {
    /// The C4 binding of the kept entry at this position does not verify.
    C4Failed { index: usize },
}

/// The first `n` opened entries pass their C4 check.
pub open spec fn all_valid(opened: Seq<((nat, nat), (nat, nat))>, entries: Seq<LinkEntry>, n: int) -> bool {
    forall|j: int|
        0 <= j < n ==> c4_valid(
            (#[trigger] opened[j]).0,
            entries[j].t@,
            opened[j].1,
            sig_view(entries[j].c4),
        )
}

/// The police's turn: the identity and `D2` of every kept entry, each
/// checked against its C4 binding; the first failure stops the run.
pub fn open_police(partial: &[(Point, Point)], entries: &[LinkEntry], inv: &Scalar, sk: &Scalar) -> (r:
    Result<Vec<(Point, Point)>, LinkError>)
    requires
        partial@.len() == entries@.len(),
    ensures
        match r {
            Ok(v) => v@.len() == entries@.len() && (forall|i: int|
                0 <= i < entries@.len() ==> pair_view(#[trigger] v@[i]) == police_opened(
                    pair_view(partial@[i]),
                    entries@[i],
                    inv@,
                    sk@,
                )) && all_valid(
                v@.map_values(|p: (Point, Point)| pair_view(p)),
                entries@,
                entries@.len() as int,
            ) && forall|i: int|
                0 <= i < entries@.len() ==> unblinded(partial@[i].0@, inv@, (#[trigger] v@[i]).0),
            Err(LinkError::C4Failed { index }) => index < entries@.len() && {
                let o = Seq::new(
                    entries@.len(),
                    |i: int| police_opened(pair_view(partial@[i]), entries@[i], inv@, sk@),
                );
                all_valid(o, entries@, index as int) && !c4_valid(
                    o[index as int].0,
                    entries@[index as int].t@,
                    o[index as int].1,
                    sig_view(entries@[index as int].c4),
                )
            },
        },
{
    let ghost o = Seq::new(
        entries@.len(),
        |i: int| police_opened(pair_view(partial@[i]), entries@[i], inv@, sk@),
    );
    let mut r: Vec<(Point, Point)> = Vec::new();
    for i in 0..entries.len()
        invariant
            partial@.len() == entries@.len(),
            o == Seq::new(
                entries@.len(),
                |i: int| police_opened(pair_view(partial@[i]), entries@[i], inv@, sk@),
            ),
            r@.len() == i,
            forall|j: int| 0 <= j < i ==> pair_view(#[trigger] r@[j]) == o[j],
            all_valid(o, entries@, i as int),
            forall|j: int| 0 <= j < i ==> unblinded(partial@[j].0@, inv@, (#[trigger] r@[j]).0),
    {
        let (p, d2) = partial[i];
        let id = p.mul(inv);
        let d2 = d2.add(&entries[i].c2.mul(sk));
        if !verify(&id, &entries[i].t, &d2, &entries[i].c4) {
            return Err(LinkError::C4Failed { index: i });
        }
        proof {
            assert(unblinded(partial@[i as int].0@, inv@, id));
        }
        r.push((id, d2));
        proof {
            assert forall|j: int| 0 <= j < i + 1 implies c4_valid(
                (#[trigger] o[j]).0,
                entries@[j].t@,
                o[j].1,
                sig_view(entries@[j].c4),
            ) by {
                if j < i {
                    assert(all_valid(o, entries@, i as int));
                }
            }
        }
    }
    assert(r@.map_values(|p: (Point, Point)| pair_view(p)) =~= o);
    Ok(r)
}

/// The identity and `D2` link-decrypt recovers from a kept entry.
pub open spec fn opened(e: LinkEntry, keys: (nat, nat, nat), invs: (nat, nat, nat)) -> (
    (nat, nat),
    (nat, nat),
) {
    let (police, judge, ngo) = keys;
    let (inv_police, inv_judge, inv_ngo) = invs;
    police_opened(judge_opened(ngo_opened(e, inv_ngo, ngo), e, inv_judge, judge), e, inv_police, police)
}

/// The three key shares, police first.
pub open spec fn key_view(keys: &AuthorityScalars) -> (nat, nat, nat) {
    (keys.police@, keys.judge@, keys.ngo@)
}

/// Decrypts the recurring entries of a linked batch: keeps those whose
/// pseudonym occurs at least `min_count` times, unblinds them with the
/// inverses of the blinding factors `[police, judge, ngo]`, and checks each
/// against C4. `Ok` holds the identity and `D2` of every kept entry, in
/// order; `Err` names the first kept entry whose C4 check fails.
pub fn decrypt_recurring(
    entries: &[LinkEntry],
    keys: &AuthorityScalars,
    blinds: &[Scalar; 3],
    min_count: usize,
) -> (r: Result<Vec<(Point, Point)>, LinkError>)
    requires
        blinds@[0]@ != 0 && blinds@[1]@ != 0 && blinds@[2]@ != 0,
    ensures
        ({
            let kept = recurring(pid_values_of(entries@), min_count as nat, entries@.len());
            let invs = (scalar_inv(blinds@[0]@), scalar_inv(blinds@[1]@), scalar_inv(blinds@[2]@));
            let o = Seq::new(
                kept.len(),
                |j: int| opened(entries@[kept[j] as int], key_view(keys), invs),
            );
            let kept_entries = Seq::new(kept.len(), |j: int| entries@[kept[j] as int]);
            match r {
                Ok(v) => v@.map_values(|p: (Point, Point)| pair_view(p)) == o && all_valid(
                    o,
                    kept_entries,
                    kept.len() as int,
                ) && forall|j: int|
                    0 <= j < kept.len() ==> unblinds_to(kept_entries[j].d3@, invs, (#[trigger] v@[j]).0),
                Err(LinkError::C4Failed { index }) => index < kept.len() && all_valid(
                    o,
                    kept_entries,
                    index as int,
                ) && !c4_valid(
                    o[index as int].0,
                    kept_entries[index as int].t@,
                    o[index as int].1,
                    sig_view(kept_entries[index as int].c4),
                ),
            }
        }),
{
    let (kept, chosen) = keep_recurring(entries, min_count);
    let inv_police = blinds[0].inverse().unwrap();
    let inv_judge = blinds[1].inverse().unwrap();
    let inv_ngo = blinds[2].inverse().unwrap();
    let p1 = unblind_ngo(chosen.as_slice(), &inv_ngo, &keys.ngo);
    let p2 = unblind_judge(p1.as_slice(), chosen.as_slice(), &inv_judge, &keys.judge);
    let r = open_police(p2.as_slice(), chosen.as_slice(), &inv_police, &keys.police);
    proof {
        let kv = recurring(pid_values_of(entries@), min_count as nat, entries@.len());
        let invs = (scalar_inv(blinds@[0]@), scalar_inv(blinds@[1]@), scalar_inv(blinds@[2]@));
        let o = Seq::new(kv.len(), |j: int| opened(entries@[kv[j] as int], key_view(keys), invs));
        let ke = Seq::new(kv.len(), |j: int| entries@[kv[j] as int]);
        assert(chosen@ =~= ke);
        let o2 = Seq::new(
            chosen@.len(),
            |i: int| police_opened(pair_view(p2@[i]), chosen@[i], inv_police@, keys.police@),
        );
        assert(o2 =~= o);
        if r is Ok {
            let v = r->Ok_0;
            assert forall|j: int| 0 <= j < kv.len() implies unblinds_to(ke[j].d3@, invs, (#[trigger] v@[j]).0) by {
                assert(unblinded(chosen@[j].d3@, inv_ngo@, p1@[j].0));
                assert(unblinded(p1@[j].0@, inv_judge@, p2@[j].0));
                assert(unblinded(p2@[j].0@, inv_police@, v@[j].0));
                assert forall|z: nat| #![trigger dl(ke[j].d3@, z)] known(ke[j].d3@) && dl(ke[j].d3@, z) implies dl(
                    v@[j].0@,
                    unblind_dl(z, invs),
                ) by {
                    assert(dl(p1@[j].0@, (z * inv_ngo@) % order()));
                    assert(dl(p2@[j].0@, (((z * inv_ngo@) % order()) * inv_judge@) % order()));
                }
            }
        }
    }
    r
}

/// The identity `id` is `D3`'s discrete logarithm unblinded by `invs`.
pub open spec fn unblinds_to(p: (nat, nat), invs: (nat, nat, nat), id: Point) -> bool {
    forall|z: nat| #![trigger dl(p, z)] known(p) && dl(p, z) ==> dl(id@, unblind_dl(z, invs))
}

} // verus!
