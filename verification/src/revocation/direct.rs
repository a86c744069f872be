//! Direct decrypt: every CFT is opened with the three authorities' partial
//! decryptions and checked against its C4 binding.
use vstd::prelude::*;

use crate::babyjub::{
    base8_spec, bj_add, bj_mul, bj_sub, dl, known, neg_scalar, order, sig_view, signed, Point, Scalar,
    SecretKey, Signature,
};
use crate::revocation::c4::{c4_valid, sign, tag_of, verify};
use crate::revocation::link::pair_view;

verus! {

/// One conditionally-openable tag: `(C1, C2)` encrypts under the aggregate
/// key, `C3` hides the identity, `C4` binds `t` and `D2` to it.
#[derive(Clone, Copy, Debug)]
pub struct Cft {
    pub c1: Point,
    pub c2: Point,
    pub c3: Point,
    pub c4: Signature,
    pub t: Scalar,
}

/// Encrypts the identity of `user_sk` under the aggregate key `pk_ag` with
/// randomness `r1`, `r2`: `C1 = r1·Base8`, `C2 = r2·Base8`,
/// `C3 = ID + r1·pk_ag`, and `C4` signs `t` and `D2 = r2·pk_ag` with the
/// nonce `nonce`.
pub fn encrypt(
    user_sk: &SecretKey,
    pk_ag: &Point,
    r1: &Scalar,
    r2: &Scalar,
    t: &Scalar,
    nonce: &Scalar,
) -> (c: Cft)
    ensures
        c.c1@ == bj_mul(base8_spec(), r1@),
        c.c2@ == bj_mul(base8_spec(), r2@),
        c.c3@ == bj_add(bj_mul(base8_spec(), user_sk@), bj_mul(pk_ag@, r1@)),
        c.t == *t,
        sig_view(c.c4) == signed(user_sk@, nonce@, tag_of(t@, bj_mul(pk_ag@, r2@))),
        dl(c.c1@, r1@),
        dl(c.c2@, r2@),
        known(c.c1@),
        known(c.c2@),
        known(c.c3@),
        forall|key: nat|
            #![trigger dl(pk_ag@, key)]
            known(pk_ag@) && dl(pk_ag@, key) ==> dl(c.c3@, (user_sk@ + (key * r1@) % order()) % order()),
{
    let d2 = pk_ag.mul(r2);
    let id = user_sk.public_key();
    let blind = pk_ag.mul(r1);
    let c3 = id.add(&blind);
    proof {
        assert forall|key: nat|
            #![trigger dl(pk_ag@, key)]
            known(pk_ag@) && dl(pk_ag@, key) implies dl(c3@, (user_sk@ + (key * r1@) % order()) % order()) by {
            assert(dl(blind@, (key * r1@) % order()));
            assert(dl(id@, user_sk@));
        }
    }
    Cft {
        c1: Point::base8().mul(r1),
        c2: Point::base8().mul(r2),
        c3,
        c4: sign(user_sk, t, &d2, nonce),
        t: *t,
    }
}

/// One authority's partial decryption `(C1·sk, C2·sk)`.
pub open spec fn share(c: Cft, sk: nat) -> ((nat, nat), (nat, nat)) {
    (bj_mul(c.c1@, sk), bj_mul(c.c2@, sk))
}

/// Every CFT's partial decryption under one key share.
pub fn partial_shares(cfts: &[Cft], sk: &Scalar) -> (r: Vec<(Point, Point)>)
    ensures
        r@.len() == cfts@.len(),
        forall|i: int| 0 <= i < cfts@.len() ==> pair_view(#[trigger] r@[i]) == share(cfts@[i], sk@),
        forall|i: int| 0 <= i < cfts@.len() ==> shared(cfts@[i], sk@, #[trigger] r@[i]),
{
    let mut r: Vec<(Point, Point)> = Vec::new();
    for i in 0..cfts.len()
        invariant
            r@.len() == i,
            forall|j: int| 0 <= j < i ==> pair_view(#[trigger] r@[j]) == share(cfts@[j], sk@),
            forall|j: int| 0 <= j < i ==> shared(cfts@[j], sk@, #[trigger] r@[j]),
    {
        let p = (cfts[i].c1.mul(sk), cfts[i].c2.mul(sk));
        r.push(p);
        proof {
            assert(shared(cfts@[i as int], sk@, p));
        }
    }
    r
}

/// Of a share `(C1·sk, C2·sk)`: both parts satisfy the group facts, and each
/// is `sk` times its ciphertext part's discrete logarithm.
pub open spec fn shared(c: Cft, sk: nat, p: (Point, Point)) -> bool {
    &&& known(p.0@)
    &&& known(p.1@)
    &&& forall|x: nat| #![trigger dl(c.c1@, x)] known(c.c1@) && dl(c.c1@, x) ==> dl(p.0@, (x * sk) % order())
    &&& forall|x: nat| #![trigger dl(c.c2@, x)] known(c.c2@) && dl(c.c2@, x) ==> dl(p.1@, (x * sk) % order())
}

/// The discrete logarithm of the identity direct decrypt opens, from those
/// of `C3`, `C1` and the NGO's and judge's shares of `D1`.
pub open spec fn opened_dl(z: nat, x1: nat, police: nat, yn: nat, yj: nat) -> nat {
    (z + neg_scalar((((x1 * police) % order() + yn) % order() + yj) % order())) % order()
}

/// What is known of an opened identity: `C3 − (C1·police + ngo + judge)`.
pub open spec fn opens_to(c: Cft, ngo: (Point, Point), judge: (Point, Point), police: nat, id: Point) -> bool {
    forall|x1: nat, z: nat, yn: nat, yj: nat|
        #![trigger dl(c.c1@, x1), dl(c.c3@, z), dl(ngo.0@, yn), dl(judge.0@, yj)]
        known(c.c1@) && known(c.c3@) && dl(c.c1@, x1) && dl(c.c3@, z) && dl(ngo.0@, yn) && dl(judge.0@, yj)
            ==> dl(id@, opened_dl(z, x1, police, yn, yj))
}

/// Opening an encryption recovers the encrypted identity `u·Base8`: with
/// key shares `sp`, `sj`, `sn` whose public keys sum to the aggregate key
/// (`dl` of `pk_police + pk_judge + pk_ngo`), `C1 = r1·Base8`,
/// `C3 = u·Base8 + r1·pk_ag`, and the shares `r1·sn·Base8`, `r1·sj·Base8`,
/// the opened point's discrete logarithm is `u`.
pub proof fn lemma_opening_recovers(u: nat, r1: nat, sp: nat, sj: nat, sn: nat)
    requires
        u < order(),
        r1 < order(),
        sp < order(),
        sj < order(),
        sn < order(),
    ensures
        opened_dl(
            (u + ((((sp + sj) % order() + sn) % order()) * r1) % order()) % order(),
            r1,
            sp,
            (r1 * sn) % order(),
            (r1 * sj) % order(),
        ) == u,
{
    let n = order() as int;
    assert(n > 0);
    let a1 = (sp + sj) % order();
    let key = (a1 + sn) % order();
    let p = (key * r1) % order();
    let z = (u + p) % order();
    let b1 = (r1 * sp) % order();
    let b2 = (r1 * sn) % order();
    let b3 = (b1 + b2) % order();
    let b4 = (r1 * sj) % order();
    let w = (b3 + b4) % order();
    let ng = neg_scalar(w);
    let res = (z + ng) % order();
    vstd::arithmetic::div_mod::lemma_fundamental_div_mod((sp + sj) as int, n);
    vstd::arithmetic::div_mod::lemma_fundamental_div_mod((a1 + sn) as int, n);
    vstd::arithmetic::div_mod::lemma_fundamental_div_mod((key * r1) as int, n);
    vstd::arithmetic::div_mod::lemma_fundamental_div_mod((u + p) as int, n);
    vstd::arithmetic::div_mod::lemma_fundamental_div_mod((r1 * sp) as int, n);
    vstd::arithmetic::div_mod::lemma_fundamental_div_mod((r1 * sn) as int, n);
    vstd::arithmetic::div_mod::lemma_fundamental_div_mod((b1 + b2) as int, n);
    vstd::arithmetic::div_mod::lemma_fundamental_div_mod((r1 * sj) as int, n);
    vstd::arithmetic::div_mod::lemma_fundamental_div_mod((b3 + b4) as int, n);
    vstd::arithmetic::div_mod::lemma_fundamental_div_mod(n - w, n);
    vstd::arithmetic::div_mod::lemma_fundamental_div_mod((z + ng) as int, n);
    vstd::arithmetic::div_mod::lemma_mod_bound((z + ng) as int, n);
    let k1 = (sp + sj) as int / n;
    let k2 = (a1 + sn) as int / n;
    let k3 = (key * r1) as int / n;
    let k4 = (u + p) as int / n;
    let k5 = (r1 * sp) as int / n;
    let k6 = (r1 * sn) as int / n;
    let k7 = (b1 + b2) as int / n;
    let k8 = (r1 * sj) as int / n;
    let k9 = (b3 + b4) as int / n;
    let k10 = (n - w) / n;
    let k11 = (z + ng) as int / n;
    assert(key == sp + sj + sn - n * (k1 + k2));
    let m = (k1 + k2) * r1;
    assert(key * r1 == r1 * sp + r1 * sj + r1 * sn - n * m) by (nonlinear_arith)
        requires
            key == sp + sj + sn - n * (k1 + k2),
            m == (k1 + k2) * r1,
    ;
    let kk = k5 + k6 + k7 + k8 + k9 + 1 - m - k3 - k4 - k10 - k11;
    assert(res - u == n * kk);
    assert(kk == 0) by (nonlinear_arith)
        requires
            res - u == n * kk,
            0 <= res < n,
            0 <= u < n,
    ;
}

/// The identity `C3 − D1` and `D2` once the police adds its share to the
/// NGO's and the judge's.
pub open spec fn direct_opened(
    c: Cft,
    ngo: ((nat, nat), (nat, nat)),
    judge: ((nat, nat), (nat, nat)),
    police: nat,
) -> ((nat, nat), (nat, nat)) {
    let p = share(c, police);
    let d1 = bj_add(bj_add(p.0, ngo.0), judge.0);
    let d2 = bj_add(bj_add(p.1, ngo.1), judge.1);
    (bj_sub(c.c3@, d1), d2)
}

/// The first `n` opened CFTs pass their C4 check.
pub open spec fn direct_valid(o: Seq<((nat, nat), (nat, nat))>, cfts: Seq<Cft>, n: int) -> bool {
    forall|j: int|
        0 <= j < n ==> c4_valid((#[trigger] o[j]).0, cfts[j].t@, o[j].1, sig_view(cfts[j].c4))
}

/// Why direct decrypt stopped.
#[derive(Debug, PartialEq, Eq)]
pub enum DirectError {
    /// The C4 binding of the CFT at this position does not verify.
    C4Failed { index: usize },
}

/// The police's turn: opens every CFT with the other two shares and checks
/// its C4 binding; the first failure stops the run.
pub fn open_direct(
    cfts: &[Cft],
    ngo: &[(Point, Point)],
    judge: &[(Point, Point)],
    police: &Scalar,
) -> (r: Result<Vec<(Point, Point)>, DirectError>)
    requires
        ngo@.len() == cfts@.len(),
        judge@.len() == cfts@.len(),
    ensures
        ({
            let o = Seq::new(
                cfts@.len(),
                |i: int| direct_opened(cfts@[i], pair_view(ngo@[i]), pair_view(judge@[i]), police@),
            );
            match r {
                Ok(v) => v@.map_values(|p: (Point, Point)| pair_view(p)) == o && direct_valid(
                    o,
                    cfts@,
                    cfts@.len() as int,
                ) && forall|i: int|
                    0 <= i < cfts@.len() ==> opens_to(cfts@[i], ngo@[i], judge@[i], police@, (#[trigger] v@[i]).0),
                Err(DirectError::C4Failed { index }) => index < cfts@.len() && direct_valid(
                    o,
                    cfts@,
                    index as int,
                ) && !c4_valid(
                    o[index as int].0,
                    cfts@[index as int].t@,
                    o[index as int].1,
                    sig_view(cfts@[index as int].c4),
                ),
            }
        }),
{
    let ghost o = Seq::new(
        cfts@.len(),
        |i: int| direct_opened(cfts@[i], pair_view(ngo@[i]), pair_view(judge@[i]), police@),
    );
    let mut r: Vec<(Point, Point)> = Vec::new();
    for i in 0..cfts.len()
        invariant
            ngo@.len() == cfts@.len(),
            judge@.len() == cfts@.len(),
            o == Seq::new(
                cfts@.len(),
                |i: int| direct_opened(cfts@[i], pair_view(ngo@[i]), pair_view(judge@[i]), police@),
            ),
            r@.len() == i,
            forall|j: int| 0 <= j < i ==> pair_view(#[trigger] r@[j]) == o[j],
            forall|j: int| 0 <= j < i ==> opens_to(cfts@[j], ngo@[j], judge@[j], police@, (#[trigger] r@[j]).0),
            direct_valid(o, cfts@, i as int),
    {
        let c = &cfts[i];
        let m1 = c.c1.mul(police);
        let d1a = m1.add(&ngo[i].0);
        let d1 = d1a.add(&judge[i].0);
        let d2 = c.c2.mul(police).add(&ngo[i].1).add(&judge[i].1);
        let id = c.c3.sub(&d1);
        if !verify(&id, &c.t, &d2, &c.c4) {
            return Err(DirectError::C4Failed { index: i });
        }
        proof {
            let ng = ngo@[i as int];
            let jg = judge@[i as int];
            assert forall|x1: nat, z: nat, yn: nat, yj: nat|
                #![trigger dl(c.c1@, x1), dl(c.c3@, z), dl(ng.0@, yn), dl(jg.0@, yj)]
                known(c.c1@) && known(c.c3@) && dl(c.c1@, x1) && dl(c.c3@, z) && dl(ng.0@, yn) && dl(
                    jg.0@,
                    yj,
                ) implies dl(id@, opened_dl(z, x1, police@, yn, yj)) by {
                let a1 = (x1 * police@) % order();
                assert(dl(m1@, a1));
                let a2 = (a1 + yn) % order();
                assert(dl(d1a@, a2));
                let a3 = (a2 + yj) % order();
                assert(dl(d1@, a3));
            }
            assert(opens_to(cfts@[i as int], ngo@[i as int], judge@[i as int], police@, id));
        }
        r.push((id, d2));
        proof {
            assert forall|j: int| 0 <= j < i + 1 implies c4_valid(
                (#[trigger] o[j]).0,
                cfts@[j].t@,
                o[j].1,
                sig_view(cfts@[j].c4),
            ) by {
                if j < i {
                    assert(direct_valid(o, cfts@, i as int));
                }
            }
        }
    }
    assert(r@.map_values(|p: (Point, Point)| pair_view(p)) =~= o);
    Ok(r)
}

} // verus!
