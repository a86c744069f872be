//! Baby Jubjub in circomlib's coordinates (`168700·x² + y² = 1 + 168696·x²y²`
//! over the BN254 scalar field), its prime-order subgroup's scalars, and
//! EdDSA-Poseidon signatures in circomlib's convention.
//!
//! The group law is `ark-ed-on-bn254`'s. That crate writes the same curve
//! with `x` scaled by `√168700`, so a point crosses into its coordinates as
//! `(x·√168700, y)` and comes back as `(u/√168700, y)`; the scaling is
//! field arithmetic done here.
use vstd::prelude::*;

use ark_ec::CurveGroup;
use ark_ed_on_bn254::{EdwardsAffine, EdwardsProjective, Fq, Fr};
use ark_ff::{BigInteger, Field, PrimeField};

use crate::zk_friendly::field::{le_value, modulus, poseidon, poseidon_of, values, Fe};

verus! {

// ---------------------------------------------------------------------------
// Field arithmetic
// ---------------------------------------------------------------------------

/// `a · b` in the field: `Fq`'s `Mul`, which reduces modulo the order.
#[verifier::external_body]
fn fe_mul(a: Fe, b: Fe) -> (r: Fe)
    ensures
        r@ == (a@ * b@) % modulus(),
{
    let v = Fq::from_le_bytes_mod_order(&a.le) * Fq::from_le_bytes_mod_order(&b.le);
    Fe { le: v.into_bigint().to_bytes_le().try_into().expect("32 bytes") }
}

/// `a + b` in the field: `Fq`'s `Add`.
#[verifier::external_body]
fn fe_add(a: Fe, b: Fe) -> (r: Fe)
    ensures
        r@ == (a@ + b@) % modulus(),
{
    let v = Fq::from_le_bytes_mod_order(&a.le) + Fq::from_le_bytes_mod_order(&b.le);
    Fe { le: v.into_bigint().to_bytes_le().try_into().expect("32 bytes") }
}

/// `-a` in the field: `Fq`'s `Neg`.
#[verifier::external_body]
fn fe_neg(a: Fe) -> (r: Fe)
    ensures
        r@ == (modulus() - a@) % (modulus() as int),
{
    let v = -Fq::from_le_bytes_mod_order(&a.le);
    Fe { le: v.into_bigint().to_bytes_le().try_into().expect("32 bytes") }
}

/// `2^64`, the base of the limbs below.
pub open spec fn limb_base() -> nat {
    18446744073709551616nat
}

/// The element with little-endian 64-bit limbs `l0..l3`, as
/// `fe_from_limbs` reduces it step by step.
pub open spec fn limbs_value(l0: u64, l1: u64, l2: u64, l3: u64) -> nat {
    let p = modulus();
    let b = limb_base();
    let x = ((l3 as nat * b) % p + l2 as nat) % p;
    let x = ((x * b) % p + l1 as nat) % p;
    ((x * b) % p + l0 as nat) % p
}

fn fe_from_limbs(l0: u64, l1: u64, l2: u64, l3: u64) -> (r: Fe)
    ensures
        r@ == limbs_value(l0, l1, l2, l3),
{
    assert(limb_base() == (4294967296nat * 4294967296nat) % modulus());
    let b = fe_mul(Fe::from_u64(4294967296), Fe::from_u64(4294967296));
    let x = fe_add(fe_mul(Fe::from_u64(l3), b), Fe::from_u64(l2));
    let x = fe_add(fe_mul(x, b), Fe::from_u64(l1));
    fe_add(fe_mul(x, b), Fe::from_u64(l0))
}

/// `√168700`, the scaling between circomlib's `x` and `ark-ed-on-bn254`'s.
pub open spec fn sqrt_a() -> nat {
    7214280148105020021932206872019688659210616427216992810330019057549499971851nat
}

/// `1/√168700`.
pub open spec fn sqrt_a_inv() -> nat {
    2957874849018779266517920829765869116077630550401372566248359756137677864698nat
}

fn sqrt_a_fe() -> (r: Fe)
    ensures
        r@ == sqrt_a(),
{
    assert(limbs_value(17277502526893340939, 5262217951781728814, 15078368191745997503, 1149301134858953720)
        == sqrt_a());
    fe_from_limbs(17277502526893340939, 5262217951781728814, 15078368191745997503, 1149301134858953720)
}

fn sqrt_a_inv_fe() -> (r: Fe)
    ensures
        r@ == sqrt_a_inv(),
{
    assert(limbs_value(10015799104991280890, 2639226381703446953, 10151623160134282421, 471216649611394079)
        == sqrt_a_inv());
    fe_from_limbs(10015799104991280890, 2639226381703446953, 10151623160134282421, 471216649611394079)
}

// ---------------------------------------------------------------------------
// Scalars of the prime-order subgroup
// ---------------------------------------------------------------------------

/// The order of Baby Jubjub's prime-order subgroup.
pub open spec fn order() -> nat {
    2736030358979909402780800718157159386076813972158567259200215660948447373041nat
}

/// A scalar, held as 32 little-endian bytes; its view is below the order.
#[derive(Clone, Copy, PartialEq, Eq, Debug)]
pub struct Scalar {
    pub(crate) le: [u8; 32],
}

impl Scalar {
    #[verifier::type_invariant]
    closed spec fn wf(self) -> bool {
        le_value(self.le@) < order()
    }

    pub closed spec fn value(self) -> nat {
        le_value(self.le@)
    }
}

impl View for Scalar {
    type V = nat;

    closed spec fn view(&self) -> nat {
        self.value()
    }
}

/// `Fr::from_bigint` on the bytes as four little-endian limbs: `None`
/// exactly when their number is not below the order.
#[verifier::external_body]
fn scalar_from_canonical_le(bytes: [u8; 32]) -> (r: Option<Scalar>)
    ensures
        r matches Some(s) ==> s@ == le_value(bytes@),
        r is None <==> le_value(bytes@) >= order(),
{
    let limbs = [
        u64::from_le_bytes(bytes[0..8].try_into().expect("8 bytes")),
        u64::from_le_bytes(bytes[8..16].try_into().expect("8 bytes")),
        u64::from_le_bytes(bytes[16..24].try_into().expect("8 bytes")),
        u64::from_le_bytes(bytes[24..32].try_into().expect("8 bytes")),
    ];
    Fr::from_bigint(ark_ff::BigInt::new(limbs)).map(|_| Scalar { le: bytes })
}

/// `Fr::from_le_bytes_mod_order`: the number reduced modulo the order.
#[verifier::external_body]
fn scalar_mod_order(bytes: &[u8]) -> (r: Scalar)
    ensures
        r@ == le_value(bytes@) % order(),
{
    let v = Fr::from_le_bytes_mod_order(bytes);
    Scalar { le: v.into_bigint().to_bytes_le().try_into().expect("32 bytes") }
}

/// `a · b` modulo the order: `Fr`'s `Mul`.
#[verifier::external_body]
fn scalar_mul(a: Scalar, b: Scalar) -> (r: Scalar)
    ensures
        r@ == (a@ * b@) % order(),
{
    let v = Fr::from_le_bytes_mod_order(&a.le) * Fr::from_le_bytes_mod_order(&b.le);
    Scalar { le: v.into_bigint().to_bytes_le().try_into().expect("32 bytes") }
}

/// `a + b` modulo the order: `Fr`'s `Add`.
#[verifier::external_body]
fn scalar_add(a: Scalar, b: Scalar) -> (r: Scalar)
    ensures
        r@ == (a@ + b@) % order(),
{
    let v = Fr::from_le_bytes_mod_order(&a.le) + Fr::from_le_bytes_mod_order(&b.le);
    Scalar { le: v.into_bigint().to_bytes_le().try_into().expect("32 bytes") }
}

/// The inverse of `k` modulo the (prime) order: the scalar whose product
/// with `k` is one, which is unique.
pub open spec fn scalar_inv(k: nat) -> nat {
    choose|i: nat| #[trigger] is_inverse(i, k)
}

/// `i · k = 1` modulo the order.
pub open spec fn is_inverse(i: nat, k: nat) -> bool {
    i < order() && (i * k) % order() == 1
}

/// `Field::inverse`: none for zero, else the scalar whose product with `k`
/// is one modulo the order.
#[verifier::external_body]
fn scalar_inverse(k: Scalar) -> (r: Option<Scalar>)
    ensures
        r is None <==> k@ == 0,
        r matches Some(i) ==> i@ == scalar_inv(k@) && (i@ * k@) % order() == 1,
{
    Fr::from_le_bytes_mod_order(&k.le).inverse().map(|v| Scalar {
        le: v.into_bigint().to_bytes_le().try_into().expect("32 bytes"),
    })
}

impl Scalar {
    /// The scalar whose little-endian bytes these are, or `None` when their
    /// number is not below the order.
    pub fn from_le_bytes(bytes: [u8; 32]) -> (r: Option<Scalar>)
        ensures
            r matches Some(s) ==> s@ == le_value(bytes@),
            r is None <==> le_value(bytes@) >= order(),
    {
        scalar_from_canonical_le(bytes)
    }

    /// The scalar's 32 little-endian bytes.
    pub fn to_le_bytes(&self) -> (r: [u8; 32])
        ensures
            le_value(r@) == self@,
    {
        self.le
    }

    /// A field element reduced into the scalars.
    pub fn from_field(f: Fe) -> (r: Scalar)
        ensures
            r@ == f@ % order(),
    {
        let bytes = f.to_le_bytes();
        scalar_mod_order(bytes.as_slice())
    }

    /// The scalar as a field element: the same number, as the order is
    /// below the field's modulus.
    pub fn to_field(&self) -> (r: Fe)
        ensures
            r@ == self@,
    {
        proof {
            use_type_invariant(self);
            assert(order() < modulus());
        }
        match Fe::from_le_bytes(self.le) {
            Some(f) => f,
            None => Fe::from_u64(0),
        }
    }

    /// `a · b` modulo the order.
    pub fn mul(&self, other: &Scalar) -> (r: Scalar)
        ensures
            r@ == (self@ * other@) % order(),
    {
        scalar_mul(*self, *other)
    }

    /// `a + b` modulo the order.
    pub fn add(&self, other: &Scalar) -> (r: Scalar)
        ensures
            r@ == (self@ + other@) % order(),
    {
        scalar_add(*self, *other)
    }

    /// The inverse modulo the order, `None` for zero.
    pub fn inverse(&self) -> (r: Option<Scalar>)
        ensures
            r is None <==> self@ == 0,
            r matches Some(i) ==> i@ == scalar_inv(self@) && (i@ * self@) % order() == 1,
    {
        scalar_inverse(*self)
    }

    /// `8`, the cofactor.
    pub fn eight() -> (r: Scalar)
        ensures
            r@ == 8,
    {
        scalar_mod_order(Fe::from_u64(8).to_le_bytes().as_slice())
    }
}

// ---------------------------------------------------------------------------
// Points
// ---------------------------------------------------------------------------

/// What `ark-ed-on-bn254` gives for the sum of two affine points, in its
/// own coordinates.
pub uninterp spec fn ed_add(p: (nat, nat), q: (nat, nat)) -> (nat, nat);

/// What `ark-ed-on-bn254` gives for `k · p`, in its own coordinates.
pub uninterp spec fn ed_mul(p: (nat, nat), k: nat) -> (nat, nat);

/// `−a` modulo the order.
pub open spec fn neg_scalar(a: nat) -> nat {
    ((order() - a) % (order() as int)) as nat
}

/// `Base8` in `ark-ed-on-bn254`'s coordinates.
pub open spec fn ed_base() -> (nat, nat) {
    to_ed(base8_spec())
}

/// What `ark-ec` documents of its curve points, that they form a group of
/// prime order `order()` generated here by `Base8`, said of a point `q`
/// that the group operations return: if `q = a·Base8`, then `b·q` is
/// `(a·b)·Base8`, `q + b·Base8` is `(a + b)·Base8`, and `−q`, which is
/// `(−u, y)` for `q = (u, y)`, is `(order − a)·Base8`.
pub open spec fn group_facts(q: (nat, nat)) -> bool {
    &&& forall|a: nat, b: nat|
        #![trigger ed_mul(ed_base(), a), ed_mul(q, b)]
        a < order() && b < order() && q == ed_mul(ed_base(), a) ==> ed_mul(q, b) == ed_mul(
            ed_base(),
            (a * b) % order(),
        )
    &&& forall|a: nat, b: nat|
        #![trigger ed_mul(ed_base(), a), ed_add(q, ed_mul(ed_base(), b))]
        a < order() && b < order() && q == ed_mul(ed_base(), a) ==> ed_add(q, ed_mul(ed_base(), b))
            == ed_mul(ed_base(), (a + b) % order())
    &&& forall|a: nat|
        #![trigger ed_mul(ed_base(), a)]
        a < order() && q == ed_mul(ed_base(), a) ==> ed_mul(ed_base(), neg_scalar(a)) == (
            ((modulus() - q.0) % (modulus() as int)) as nat,
            q.1,
        )
}

/// `EdwardsAffine + EdwardsAffine`, normalised back to affine coordinates
/// by `normalize_batch`, which leaves a zero `z` uninverted instead of
/// panicking, so any two coordinate pairs are accepted.
#[verifier::external_body]
fn point_add(pu: Fe, py: Fe, qu: Fe, qy: Fe) -> (r: (Fe, Fe))
    ensures
        (r.0@, r.1@) == ed_add((pu@, py@), (qu@, qy@)),
        group_facts((r.0@, r.1@)),
{
    let p = EdwardsAffine::new_unchecked(Fq::from_le_bytes_mod_order(&pu.le), Fq::from_le_bytes_mod_order(&py.le));
    let q = EdwardsAffine::new_unchecked(Fq::from_le_bytes_mod_order(&qu.le), Fq::from_le_bytes_mod_order(&qy.le));
    let r = EdwardsProjective::normalize_batch(&[p + q])[0];
    (
        Fe { le: r.x.into_bigint().to_bytes_le().try_into().expect("32 bytes") },
        Fe { le: r.y.into_bigint().to_bytes_le().try_into().expect("32 bytes") },
    )
}

/// `EdwardsAffine * Fr`, normalised back to affine coordinates by
/// `normalize_batch`, as above.
#[verifier::external_body]
fn point_mul(pu: Fe, py: Fe, k: Scalar) -> (r: (Fe, Fe))
    ensures
        (r.0@, r.1@) == ed_mul((pu@, py@), k@),
        group_facts((r.0@, r.1@)),
{
    let p = EdwardsAffine::new_unchecked(Fq::from_le_bytes_mod_order(&pu.le), Fq::from_le_bytes_mod_order(&py.le));
    let r = EdwardsProjective::normalize_batch(&[p * Fr::from_le_bytes_mod_order(&k.le)])[0];
    (
        Fe { le: r.x.into_bigint().to_bytes_le().try_into().expect("32 bytes") },
        Fe { le: r.y.into_bigint().to_bytes_le().try_into().expect("32 bytes") },
    )
}

/// A point in circomlib's affine coordinates.
#[derive(Clone, Copy, PartialEq, Eq, Debug)]
pub struct Point {
    pub x: Fe,
    pub y: Fe,
}

impl View for Point {
    type V = (nat, nat);

    open spec fn view(&self) -> (nat, nat) {
        (self.x@, self.y@)
    }
}

/// Into `ark-ed-on-bn254`'s coordinates.
pub open spec fn to_ed(p: (nat, nat)) -> (nat, nat) {
    ((p.0 * sqrt_a()) % modulus(), p.1)
}

/// Back into circomlib's coordinates.
pub open spec fn from_ed(q: (nat, nat)) -> (nat, nat) {
    ((q.0 * sqrt_a_inv()) % modulus(), q.1)
}

/// `p + q` on Baby Jubjub.
pub open spec fn bj_add(p: (nat, nat), q: (nat, nat)) -> (nat, nat) {
    from_ed(ed_add(to_ed(p), to_ed(q)))
}

/// `k · p` on Baby Jubjub.
pub open spec fn bj_mul(p: (nat, nat), k: nat) -> (nat, nat) {
    from_ed(ed_mul(to_ed(p), k))
}

/// `-p`: the point mirrored in `x`.
pub open spec fn bj_neg(p: (nat, nat)) -> (nat, nat) {
    (((modulus() - p.0) % (modulus() as int)) as nat, p.1)
}

/// `p - q`.
pub open spec fn bj_sub(p: (nat, nat), q: (nat, nat)) -> (nat, nat) {
    bj_add(p, bj_neg(q))
}

/// `Base8`, the generator circom's scalars multiply.
pub open spec fn base8_spec() -> (nat, nat) {
    (
        5299619240641551281634865583518297030282874472190772894086521144482721001553nat,
        16950150798460657717958625567821834550301663161624707787222815936182638968203nat,
    )
}

/// `p` is `a·Base8`, with `a` below the order.
pub open spec fn dl(p: (nat, nat), a: nat) -> bool {
    a < order() && to_ed(p) == ed_mul(ed_base(), a)
}

/// The group facts hold of `p`, as they do of every point the group
/// operations return.
pub open spec fn known(p: (nat, nat)) -> bool {
    group_facts(to_ed(p))
}

/// A point is determined by its discrete logarithm.
pub proof fn lemma_dl_unique(p: (nat, nat), q: (nat, nat), a: nat)
    requires
        p.0 < modulus(),
        q.0 < modulus(),
        dl(p, a),
        dl(q, a),
    ensures
        p == q,
{
    lemma_to_ed_injective(p, q);
}

/// `sqrt_a()` and `sqrt_a_inv()` are inverse to each other.
proof fn lemma_sqrt_inverse()
    ensures
        (sqrt_a() * sqrt_a_inv()) % modulus() == 1,
        (sqrt_a_inv() * sqrt_a()) % modulus() == 1,
{
    assert((sqrt_a() * sqrt_a_inv()) % modulus() == 1);
    assert((sqrt_a_inv() * sqrt_a()) % modulus() == 1);
}

/// Scaling by `u` and then by `v`, with `u·v = 1`, gives back `x`.
proof fn lemma_scale_back(x: nat, u: nat, v: nat)
    requires
        x < modulus(),
        (u * v) % modulus() == 1,
    ensures
        ((x * u) % modulus() * v) % modulus() == x,
{
    let m = modulus() as int;
    vstd::arithmetic::div_mod::lemma_mul_mod_noop_left((x * u) as int, v as int, m);
    vstd::arithmetic::mul::lemma_mul_is_associative(x as int, u as int, v as int);
    vstd::arithmetic::div_mod::lemma_mul_mod_noop_right(x as int, (u * v) as int, m);
    vstd::arithmetic::div_mod::lemma_small_mod(x, m as nat);
}

/// A point in circomlib's coordinates is determined by its image.
proof fn lemma_to_ed_injective(p: (nat, nat), q: (nat, nat))
    requires
        p.0 < modulus(),
        q.0 < modulus(),
        to_ed(p) == to_ed(q),
    ensures
        p == q,
{
    lemma_sqrt_inverse();
    lemma_scale_back(p.0, sqrt_a(), sqrt_a_inv());
    lemma_scale_back(q.0, sqrt_a(), sqrt_a_inv());
}

/// Mirroring in `x` commutes with the scaling.
proof fn lemma_to_ed_neg(p: (nat, nat))
    requires
        p.0 < modulus(),
    ensures
        to_ed(bj_neg(p)) == (((modulus() - to_ed(p).0) % (modulus() as int)) as nat, p.1),
{
    let m = modulus() as int;
    let x = p.0 as int;
    let s = sqrt_a() as int;
    let t = (x * s) % m;
    vstd::arithmetic::div_mod::lemma_fundamental_div_mod(x * s, m);
    let q = (x * s) / m;
    assert(x * s == m * q + t);
    if x == 0 {
        assert(x * s == 0);
        vstd::arithmetic::div_mod::lemma_small_mod(0, m as nat);
        assert(((m - x) % m) == 0) by {
            vstd::arithmetic::div_mod::lemma_mod_self_0(m);
        }
    } else {
        vstd::arithmetic::div_mod::lemma_small_mod((m - x) as nat, m as nat);
        assert((m - x) * s == m * (s - q) - t) by (nonlinear_arith)
            requires
                x * s == m * q + t,
        ;
        if t == 0 {
            assert((m - x) * s == m * (s - q));
            vstd::arithmetic::div_mod::lemma_mod_multiples_basic(s - q, m);
            vstd::arithmetic::div_mod::lemma_mod_self_0(m);
        } else {
            assert(0 <= t < m) by {
                vstd::arithmetic::div_mod::lemma_mod_bound(x * s, m);
            }
            assert((m - x) * s == m * (s - q - 1) + (m - t)) by (nonlinear_arith)
                requires
                    (m - x) * s == m * (s - q) - t,
            ;
            vstd::arithmetic::div_mod::lemma_mod_multiples_vanish(s - q - 1, m - t, m);
            vstd::arithmetic::div_mod::lemma_small_mod((m - t) as nat, m as nat);
        }
    }
}

/// The image of a point this module computes from an arkworks result
/// `(u, y)` is that result.
proof fn lemma_from_ark(u: nat, y: nat)
    requires
        u < modulus(),
    ensures
        to_ed(((u * sqrt_a_inv()) % modulus(), y)) == (u, y),
{
    lemma_sqrt_inverse();
    lemma_scale_back(u, sqrt_a_inv(), sqrt_a());
}

impl Point {
    /// `self + other` on the curve.
    pub fn add(&self, other: &Point) -> (r: Point)
        ensures
            r@ == bj_add(self@, other@),
            to_ed(r@) == ed_add(to_ed(self@), to_ed(other@)),
            known(r@),
            forall|a: nat, b: nat|
                #![trigger dl(self@, a), dl(other@, b)]
                known(self@) && dl(self@, a) && dl(other@, b) ==> dl(r@, (a + b) % order()),
    {
        let s = sqrt_a_fe();
        let (u, y) = point_add(fe_mul(self.x, s), self.y, fe_mul(other.x, s), other.y);
        u.below_modulus();
        let r = Point { x: fe_mul(u, sqrt_a_inv_fe()), y };
        proof {
            lemma_from_ark(u@, y@);
            assert forall|a: nat, b: nat|
                #![trigger dl(self@, a), dl(other@, b)]
                known(self@) && dl(self@, a) && dl(other@, b) implies dl(r@, (a + b) % order()) by {
                assert(ed_add(to_ed(self@), ed_mul(ed_base(), b)) == ed_mul(ed_base(), (a + b) % order()));
            }
        }
        r
    }

    /// `k · self`.
    pub fn mul(&self, k: &Scalar) -> (r: Point)
        ensures
            r@ == bj_mul(self@, k@),
            to_ed(r@) == ed_mul(to_ed(self@), k@),
            known(r@),
            self@ == base8_spec() ==> dl(r@, k@),
            forall|a: nat|
                #![trigger dl(self@, a)]
                known(self@) && dl(self@, a) ==> dl(r@, (a * k@) % order()),
    {
        proof {
            use_type_invariant(k);
        }
        let s = sqrt_a_fe();
        let (u, y) = point_mul(fe_mul(self.x, s), self.y, *k);
        u.below_modulus();
        let r = Point { x: fe_mul(u, sqrt_a_inv_fe()), y };
        proof {
            lemma_from_ark(u@, y@);
            assert forall|a: nat|
                #![trigger dl(self@, a)]
                known(self@) && dl(self@, a) implies dl(r@, (a * k@) % order()) by {
                assert(ed_mul(to_ed(self@), k@) == ed_mul(ed_base(), (a * k@) % order()));
            }
        }
        r
    }

    /// `-self`.
    pub fn neg(&self) -> (r: Point)
        ensures
            r@ == bj_neg(self@),
            forall|a: nat|
                #![trigger dl(self@, a)]
                known(self@) && dl(self@, a) ==> dl(r@, neg_scalar(a)),
    {
        self.x.below_modulus();
        let r = Point { x: fe_neg(self.x), y: self.y };
        proof {
            lemma_to_ed_neg(self@);
            assert forall|a: nat|
                #![trigger dl(self@, a)]
                known(self@) && dl(self@, a) implies dl(r@, neg_scalar(a)) by {
                assert(ed_mul(ed_base(), neg_scalar(a)) == (
                    ((modulus() - to_ed(self@).0) % (modulus() as int)) as nat,
                    to_ed(self@).1,
                ));
            }
        }
        r
    }

    /// `self - other`.
    pub fn sub(&self, other: &Point) -> (r: Point)
        ensures
            r@ == bj_sub(self@, other@),
            known(r@),
            forall|a: nat, b: nat|
                #![trigger dl(self@, a), dl(other@, b)]
                known(self@) && known(other@) && dl(self@, a) && dl(other@, b) ==> dl(
                    r@,
                    (a + neg_scalar(b)) % order(),
                ),
    {
        let n = other.neg();
        let r = self.add(&n);
        proof {
            assert forall|a: nat, b: nat|
                #![trigger dl(self@, a), dl(other@, b)]
                known(self@) && known(other@) && dl(self@, a) && dl(other@, b) implies dl(
                    r@,
                    (a + neg_scalar(b)) % order(),
                ) by {
                assert(dl(n@, neg_scalar(b)));
            }
        }
        r
    }

    /// Whether the two points are the same.
    pub fn same(&self, other: &Point) -> (r: bool)
        ensures
            r == (self@ == other@),
    {
        self.x.same_value(&other.x) && self.y.same_value(&other.y)
    }

    /// `Base8`, the generator of the prime-order subgroup.
    pub fn base8() -> (r: Point)
        ensures
            r@ == base8_spec(),
    {
        assert(limbs_value(2923948824128221265, 3078447844201652406, 5669102708735506369, 844278054434796443)
            == base8_spec().0);
        assert(limbs_value(5421249259631377803, 18221569726161695607, 2690670003684637165, 2700314812950295113)
            == base8_spec().1);
        Point {
            x: fe_from_limbs(2923948824128221265, 3078447844201652406, 5669102708735506369, 844278054434796443),
            y: fe_from_limbs(5421249259631377803, 18221569726161695607, 2690670003684637165, 2700314812950295113),
        }
    }
}

// ---------------------------------------------------------------------------
// EdDSA-Poseidon, as circomlib checks it
// ---------------------------------------------------------------------------

/// A signature `(R8, S)`.
#[derive(Clone, Copy, PartialEq, Eq, Debug)]
pub struct Signature {
    pub r8: Point,
    pub s: Scalar,
}

/// `hm = poseidon(R8x, R8y, Ax, Ay, msg)`, reduced into the scalars.
pub open spec fn challenge(r8: (nat, nat), a: (nat, nat), msg: nat) -> nat {
    poseidon_of(seq![r8.0, r8.1, a.0, a.1, msg]) % order()
}

/// `S·Base8 == R8 + (8·hm)·A`, compared in the coordinates the group law is
/// computed in.
pub open spec fn eddsa_valid(a: (nat, nat), msg: nat, r8: (nat, nat), s: nat) -> bool {
    ed_mul(ed_base(), s) == ed_add(to_ed(r8), ed_mul(to_ed(a), (challenge(r8, a, msg) * 8) % order()))
}

/// Checks an EdDSA-Poseidon signature on `msg` under the public key `a`.
pub fn verify_poseidon(a: &Point, msg: Fe, sig: &Signature) -> (r: bool)
    ensures
        r == eddsa_valid(a@, msg@, sig.r8@, sig.s@),
{
    let inputs = [sig.r8.x, sig.r8.y, a.x, a.y, msg];
    assert(values(inputs@) =~= seq![sig.r8@.0, sig.r8@.1, a@.0, a@.1, msg@]);
    let hm = Scalar::from_field(poseidon(&inputs));
    let lhs = Point::base8().mul(&sig.s);
    let rhs = sig.r8.add(&a.mul(&hm.mul(&Scalar::eight())));
    lhs.x.below_modulus();
    rhs.x.below_modulus();
    proof {
        if to_ed(lhs@) == to_ed(rhs@) {
            lemma_to_ed_injective(lhs@, rhs@);
        }
    }
    lhs.same(&rhs)
}

/// An EdDSA signing key.
#[derive(Clone, Copy, Debug)]
pub struct SecretKey(Scalar);

impl View for SecretKey {
    type V = nat;

    closed spec fn view(&self) -> nat {
        self.0@
    }
}

/// The signature `(R8, S)` on `msg` under `sk` with nonce `r`:
/// `R8 = r·Base8`, `S = r + (8·hm)·sk`.
pub open spec fn signed(sk: nat, r: nat, msg: nat) -> (nat, nat, nat) {
    let r8 = bj_mul(base8_spec(), r);
    let hm = challenge(r8, bj_mul(base8_spec(), sk), msg);
    (r8.0, r8.1, (r + ((hm * 8) % order() * sk) % order()) % order())
}

impl SecretKey {
    /// Wraps an already-sampled scalar.
    pub fn from_scalar(sk: Scalar) -> (r: SecretKey)
        ensures
            r@ == sk@,
    {
        SecretKey(sk)
    }

    pub fn scalar(&self) -> (r: Scalar)
        ensures
            r@ == self@,
    {
        self.0
    }

    /// `sk·Base8`.
    pub fn public_key(&self) -> (r: Point)
        ensures
            r@ == bj_mul(base8_spec(), self@),
            to_ed(r@) == ed_mul(ed_base(), self@),
            dl(r@, self@),
            known(r@),
    {
        Point::base8().mul(&self.0)
    }

    /// Signs `msg` with the nonce `r`, in circomlib's cofactor convention.
    /// The signature verifies under this key's public key.
    pub fn sign_poseidon(&self, msg: Fe, r: &Scalar) -> (s: Signature)
        ensures
            sig_view(s) == signed(self@, r@, msg@),
            eddsa_valid(bj_mul(base8_spec(), self@), msg@, s.r8@, s.s@),
    {
        proof {
            use_type_invariant(r);
            use_type_invariant(&self.0);
        }
        let r8 = Point::base8().mul(r);
        let a = self.public_key();
        let inputs = [r8.x, r8.y, a.x, a.y, msg];
        assert(values(inputs@) =~= seq![r8@.0, r8@.1, a@.0, a@.1, msg@]);
        let hm = Scalar::from_field(poseidon(&inputs));
        let c = hm.mul(&Scalar::eight());
        let sig = Signature { r8, s: r.add(&c.mul(&self.0)) };
        proof {
            let sk = self@;
            let b = (sk * c@) % order();
            assert(c@ * sk == sk * c@) by (nonlinear_arith);
            assert(ed_mul(to_ed(a@), c@) == ed_mul(ed_base(), b));
            assert(ed_add(to_ed(r8@), ed_mul(ed_base(), b)) == ed_mul(ed_base(), (r@ + b) % order()));
        }
        sig
    }
}

/// The signature's `(R8x, R8y, S)`.
pub open spec fn sig_view(sig: Signature) -> (nat, nat, nat) {
    (sig.r8@.0, sig.r8@.1, sig.s@)
}

} // verus!
