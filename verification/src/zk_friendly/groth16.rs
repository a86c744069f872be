//! Native Groth16 verification of snarkjs artifacts on BN254: the headers,
//! the decimal coordinates and their on-curve checks, the public signals,
//! and the pairing check, whose arithmetic is `ark-bn254`'s.
use vstd::prelude::*;

use std::str::FromStr;

use ark_bn254::{Bn254, Fq as BnFq, Fq2, Fr as BnFr, G1Affine, G1Projective, G2Affine};
use ark_ec::{pairing::Pairing, AffineRepr, CurveGroup, VariableBaseMSM};
use ark_ff::{BigInteger, One, PrimeField};

use crate::text::{all_digits, chars_eq, digits_value, str_chars};
use crate::zk_friendly::field::{le_value, modulus, values, Fe};

verus! {

// ---------------------------------------------------------------------------
// Coordinates
// ---------------------------------------------------------------------------

/// The order of BN254's base field.
pub open spec fn base_modulus() -> nat {
    21888242871839275222246405745257275088696311157297823662689037894645226208583nat
}

/// An element of BN254's base field, as 32 little-endian bytes.
#[derive(Clone, Copy, PartialEq, Eq, Debug)]
pub struct Fq {
    le: [u8; 32],
}

impl View for Fq {
    type V = nat;

    closed spec fn view(&self) -> nat {
        le_value(self.le@)
    }
}

/// What `ark_bn254::Fq::from_str` gives for a text: the element, if any.
pub uninterp spec fn fq_parse(s: Seq<char>) -> Option<nat>;

/// What `ark_bn254::Fr::from_str` gives for a text: the element, if any.
pub uninterp spec fn fr_parse(s: Seq<char>) -> Option<nat>;

/// `ark_bn254::Fq::from_str`. A non-empty string of ASCII digits is read as
/// a decimal number and reduced modulo the field's order (its source parses
/// with `BigInt::from_str`, reduces and converts back); other texts are left
/// to the name.
#[verifier::external_body]
fn fq_from_str(s: &str) -> (r: Option<Fq>)
    ensures
        r matches Some(f) ==> fq_parse(s@) == Some(f@),
        r is None ==> fq_parse(s@) is None,
        s@.len() > 0 && all_digits(s@) ==> r is Some,
        r matches Some(f) ==> (s@.len() > 0 && all_digits(s@) ==> f@ == digits_value(s@)
            % base_modulus()),
{
    BnFq::from_str(s).ok().map(|v| Fq { le: v.into_bigint().to_bytes_le().try_into().expect("32 bytes") })
}

/// `ark_bn254::Fr::from_str`, as above for the scalar field.
#[verifier::external_body]
fn fr_from_str(s: &str) -> (r: Option<Fe>)
    ensures
        r matches Some(f) ==> fr_parse(s@) == Some(f@),
        r is None ==> fr_parse(s@) is None,
        s@.len() > 0 && all_digits(s@) ==> r is Some,
        r matches Some(f) ==> (s@.len() > 0 && all_digits(s@) ==> f@ == digits_value(s@) % modulus()),
{
    BnFr::from_str(s).ok().map(|v| Fe { le: v.into_bigint().to_bytes_le().try_into().expect("32 bytes") })
}

// ---------------------------------------------------------------------------
// Points
// ---------------------------------------------------------------------------

/// An arkworks G1 point, carried beside its coordinates.
#[verifier::external_body]
pub struct ArkG1 {
    p: G1Affine,
}

/// An arkworks G2 point, carried beside its coordinates.
#[verifier::external_body]
pub struct ArkG2 {
    p: G2Affine,
}

/// A G1 point in affine coordinates.
pub struct G1 {
    x: Fq,
    y: Fq,
    ark: ArkG1,
}

impl View for G1 {
    type V = (nat, nat);

    closed spec fn view(&self) -> (nat, nat) {
        (self.x@, self.y@)
    }
}

/// A G2 point in affine coordinates over `Fq2 = Fq[u]/(u² + 1)`, each
/// coordinate as `(c0, c1)` for `c0 + c1·u`.
pub struct G2 {
    x: (Fq, Fq),
    y: (Fq, Fq),
    ark: ArkG2,
}

impl View for G2 {
    type V = ((nat, nat), (nat, nat));

    closed spec fn view(&self) -> ((nat, nat), (nat, nat)) {
        ((self.x.0@, self.x.1@), (self.y.0@, self.y.1@))
    }
}

/// `G1Affine::new_unchecked` on the coordinates.
#[verifier::external_body]
fn g1_new(x: Fq, y: Fq) -> (r: G1)
    ensures
        r@ == (x@, y@),
{
    let p = G1Affine::new_unchecked(BnFq::from_le_bytes_mod_order(&x.le), BnFq::from_le_bytes_mod_order(&y.le));
    G1 { x, y, ark: ArkG1 { p } }
}

/// `G2Affine::new_unchecked` on the coordinates.
#[verifier::external_body]
fn g2_new(x: (Fq, Fq), y: (Fq, Fq)) -> (r: G2)
    ensures
        r@ == ((x.0@, x.1@), (y.0@, y.1@)),
{
    let f = |c: &Fq| BnFq::from_le_bytes_mod_order(&c.le);
    let p = G2Affine::new_unchecked(Fq2::new(f(&x.0), f(&x.1)), Fq2::new(f(&y.0), f(&y.1)));
    G2 { x, y, ark: ArkG2 { p } }
}

/// `y² = x³ + 3` in the base field.
pub open spec fn g1_on_curve(p: (nat, nat)) -> bool {
    (p.1 * p.1) % base_modulus() == (p.0 * p.0 * p.0 + 3) % base_modulus()
}

/// A product in `Fq2`, where `u² = −1`.
pub open spec fn fq2_mul(a: (nat, nat), b: (nat, nat)) -> (nat, nat) {
    let q = base_modulus() as int;
    (((a.0 * b.0 - a.1 * b.1) % q) as nat, ((a.0 * b.1 + a.1 * b.0) as int % q) as nat)
}

/// `3/(u + 9)`, the twist's constant term.
pub open spec fn g2_coeff_b() -> (nat, nat) {
    (
        19485874751759354771024239261021720505790618469301721065564631296452457478373nat,
        266929791119991161246907387137283842545076965332900288569378510910307636690nat,
    )
}

/// `y² = x³ + b` in `Fq2`.
pub open spec fn g2_on_curve(p: ((nat, nat), (nat, nat))) -> bool {
    let x3 = fq2_mul(fq2_mul(p.0, p.0), p.0);
    let b = g2_coeff_b();
    fq2_mul(p.1, p.1) == ((x3.0 + b.0) % base_modulus(), (x3.1 + b.1) % base_modulus())
}

/// `Affine::is_on_curve` for a finite G1 point: `y² == x³ + 3`.
#[verifier::external_body]
fn g1_is_on_curve(p: &G1) -> (r: bool)
    ensures
        r == g1_on_curve(p@),
{
    p.ark.p.is_on_curve()
}

/// `Affine::is_on_curve` for a finite G2 point: `y² == x³ + b`.
#[verifier::external_body]
fn g2_is_on_curve(p: &G2) -> (r: bool)
    ensures
        r == g2_on_curve(p@),
{
    p.ark.p.is_on_curve()
}

// ---------------------------------------------------------------------------
// Errors and the raw artifacts
// ---------------------------------------------------------------------------

/// Why an artifact was refused.
#[derive(Debug, PartialEq, Eq)]
pub enum Groth16Error {
    WrongProtocol { protocol: String },
    WrongCurve { curve: String },
    NotBaseField { raw: String },
    NotScalar { raw: String },
    G1NotOnCurve,
    G2NotOnCurve,
    EmptyIc,
    SignalCount { expected: usize, got: usize },
}

/// An error as a kind and the text it quotes.
pub open spec fn fault(e: Groth16Error) -> (nat, Seq<char>) {
    match e {
        Groth16Error::WrongProtocol { protocol } => wrong_protocol(protocol@),
        Groth16Error::WrongCurve { curve } => wrong_curve(curve@),
        Groth16Error::NotBaseField { raw } => not_base_field(raw@),
        Groth16Error::NotScalar { raw } => not_scalar(raw@),
        Groth16Error::G1NotOnCurve => g1_off_curve(),
        Groth16Error::G2NotOnCurve => g2_off_curve(),
        Groth16Error::EmptyIc => empty_ic(),
        Groth16Error::SignalCount { .. } => (7, Seq::empty()),
    }
}

pub open spec fn wrong_protocol(p: Seq<char>) -> (nat, Seq<char>) {
    (0, p)
}

pub open spec fn wrong_curve(c: Seq<char>) -> (nat, Seq<char>) {
    (1, c)
}

pub open spec fn not_base_field(raw: Seq<char>) -> (nat, Seq<char>) {
    (2, raw)
}

pub open spec fn not_scalar(raw: Seq<char>) -> (nat, Seq<char>) {
    (3, raw)
}

pub open spec fn g1_off_curve() -> (nat, Seq<char>) {
    (4, Seq::empty())
}

pub open spec fn g2_off_curve() -> (nat, Seq<char>) {
    (5, Seq::empty())
}

pub open spec fn empty_ic() -> (nat, Seq<char>) {
    (6, Seq::empty())
}

/// A G1 point as snarkjs writes it, `[x, y, "1"]`; the third entry is not read.
pub struct RawG1 {
    pub x: String,
    pub y: String,
}

/// A G2 point as snarkjs writes it, `[[x0, x1], [y0, y1], ["1", "0"]]`.
pub struct RawG2 {
    pub x0: String,
    pub x1: String,
    pub y0: String,
    pub y1: String,
}

/// The fields of a `vkey-*.json` this verifier reads.
pub struct RawVerifyingKey {
    pub protocol: String,
    pub curve: String,
    pub alpha: RawG1,
    pub beta: RawG2,
    pub gamma: RawG2,
    pub delta: RawG2,
    pub ic: Vec<RawG1>,
}

/// The fields of a `proof.json` this verifier reads.
pub struct RawProof {
    pub protocol: String,
    pub curve: String,
    pub a: RawG1,
    pub b: RawG2,
    pub c: RawG1,
}

pub open spec fn raw_g1(r: &RawG1) -> (Seq<char>, Seq<char>) {
    (r.x@, r.y@)
}

pub open spec fn raw_g2(r: &RawG2) -> (Seq<char>, Seq<char>, Seq<char>, Seq<char>) {
    (r.x0@, r.x1@, r.y0@, r.y1@)
}

// ---------------------------------------------------------------------------
// Parsing
// ---------------------------------------------------------------------------

/// What parsing one base-field coordinate gives.
pub open spec fn fq_spec(s: Seq<char>) -> Result<nat, (nat, Seq<char>)> {
    match fq_parse(s) {
        Some(v) => Ok(v),
        None => Err(not_base_field(s)),
    }
}

/// What parsing a G1 point gives: `x`, then `y`, then the curve check.
pub open spec fn g1_spec(r: (Seq<char>, Seq<char>)) -> Result<(nat, nat), (nat, Seq<char>)> {
    match fq_spec(r.0) {
        Err(e) => Err(e),
        Ok(x) => match fq_spec(r.1) {
            Err(e) => Err(e),
            Ok(y) => if g1_on_curve((x, y)) {
                Ok((x, y))
            } else {
                Err(g1_off_curve())
            },
        },
    }
}

/// What parsing a G2 point gives: `x0`, `x1`, `y0`, `y1`, then the curve
/// check.
pub open spec fn g2_spec(r: (Seq<char>, Seq<char>, Seq<char>, Seq<char>)) -> Result<
    ((nat, nat), (nat, nat)),
    (nat, Seq<char>),
> {
    match fq_spec(r.0) {
        Err(e) => Err(e),
        Ok(x0) => match fq_spec(r.1) {
            Err(e) => Err(e),
            Ok(x1) => match fq_spec(r.2) {
                Err(e) => Err(e),
                Ok(y0) => match fq_spec(r.3) {
                    Err(e) => Err(e),
                    Ok(y1) => if g2_on_curve(((x0, x1), (y0, y1))) {
                        Ok(((x0, x1), (y0, y1)))
                    } else {
                        Err(g2_off_curve())
                    },
                },
            },
        },
    }
}

fn parse_fq(s: &String) -> (r: Result<Fq, Groth16Error>)
    ensures
        match fq_spec(s@) {
            Ok(v) => r matches Ok(f) && f@ == v,
            Err(e) => r matches Err(g) && fault(g) == e,
        },
{
    match fq_from_str(s.as_str()) {
        Some(f) => Ok(f),
        None => Err(Groth16Error::NotBaseField { raw: s.clone() }),
    }
}

impl G1 {
    /// Parses a G1 point and checks that it is on the curve.
    pub fn parse(raw: &RawG1) -> (r: Result<G1, Groth16Error>)
        ensures
            match g1_spec(raw_g1(raw)) {
                Ok(v) => r matches Ok(p) && p@ == v,
                Err(e) => r matches Err(g) && fault(g) == e,
            },
    {
        let x = parse_fq(&raw.x)?;
        let y = parse_fq(&raw.y)?;
        let p = g1_new(x, y);
        if g1_is_on_curve(&p) {
            Ok(p)
        } else {
            Err(Groth16Error::G1NotOnCurve)
        }
    }
}

impl G2 {
    /// Parses a G2 point and checks that it is on the curve.
    pub fn parse(raw: &RawG2) -> (r: Result<G2, Groth16Error>)
        ensures
            match g2_spec(raw_g2(raw)) {
                Ok(v) => r matches Ok(p) && p@ == v,
                Err(e) => r matches Err(g) && fault(g) == e,
            },
    {
        let x0 = parse_fq(&raw.x0)?;
        let x1 = parse_fq(&raw.x1)?;
        let y0 = parse_fq(&raw.y0)?;
        let y1 = parse_fq(&raw.y1)?;
        let p = g2_new((x0, x1), (y0, y1));
        if g2_is_on_curve(&p) {
            Ok(p)
        } else {
            Err(Groth16Error::G2NotOnCurve)
        }
    }
}

/// The header check: a Groth16 artifact over `bn128`.
pub open spec fn header_spec(protocol: Seq<char>, curve: Seq<char>) -> Result<(), (nat, Seq<char>)> {
    if protocol != "groth16"@ {
        Err(wrong_protocol(protocol))
    } else if curve != "bn128"@ {
        Err(wrong_curve(curve))
    } else {
        Ok(())
    }
}

/// Accepts a Groth16 artifact over `bn128` and nothing else.
pub fn check_header(protocol: &str, curve: &str) -> (r: Result<(), Groth16Error>)
    ensures
        r is Ok <==> protocol@ == "groth16"@ && curve@ == "bn128"@,
        match header_spec(protocol@, curve@) {
            Ok(_) => r is Ok,
            Err(e) => r matches Err(g) && fault(g) == e,
        },
{
    let groth16 = "groth16";
    let bn128 = "bn128";
    proof {
        reveal_strlit("groth16");
        reveal_strlit("bn128");
    }
    if !chars_eq(str_chars(protocol).as_slice(), str_chars(groth16).as_slice()) {
        return Err(Groth16Error::WrongProtocol { protocol: protocol.to_owned() });
    }
    if !chars_eq(str_chars(curve).as_slice(), str_chars(bn128).as_slice()) {
        return Err(Groth16Error::WrongCurve { curve: curve.to_owned() });
    }
    Ok(())
}

/// The IC points parsed in order; the first failure stops.
pub open spec fn ic_spec(raw: Seq<(Seq<char>, Seq<char>)>, n: nat) -> Result<Seq<(nat, nat)>, (nat, Seq<char>)>
    decreases n,
{
    if n == 0 {
        Ok(Seq::empty())
    } else {
        match ic_spec(raw, (n - 1) as nat) {
            Err(e) => Err(e),
            Ok(v) => match g1_spec(raw[n - 1]) {
                Err(e) => Err(e),
                Ok(p) => Ok(v.push(p)),
            },
        }
    }
}

proof fn lemma_ic_error_stays(raw: Seq<(Seq<char>, Seq<char>)>, k: nat, n: nat)
    requires
        k <= n,
        ic_spec(raw, k) is Err,
    ensures
        ic_spec(raw, n) == ic_spec(raw, k),
    decreases n - k,
{
    if n > k {
        lemma_ic_error_stays(raw, k, (n - 1) as nat);
    }
}

pub open spec fn raw_ic(ic: Seq<RawG1>) -> Seq<(Seq<char>, Seq<char>)> {
    ic.map_values(|r: RawG1| raw_g1(&r))
}

/// A key's `(α, β, γ, δ, IC)`.
pub type VkView = ((nat, nat), ((nat, nat), (nat, nat)), ((nat, nat), (nat, nat)), ((nat, nat), (nat, nat)), Seq<(nat, nat)>);

/// What parsing a key gives: the header, `α`, `β`, the IC points, that
/// IC is not empty, `γ`, then `δ`.
pub open spec fn vk_spec(raw: &RawVerifyingKey) -> Result<VkView, (nat, Seq<char>)> {
    match header_spec(raw.protocol@, raw.curve@) {
        Err(e) => Err(e),
        Ok(_) => match g1_spec(raw_g1(&raw.alpha)) {
            Err(e) => Err(e),
            Ok(alpha) => match g2_spec(raw_g2(&raw.beta)) {
                Err(e) => Err(e),
                Ok(beta) => match ic_spec(raw_ic(raw.ic@), raw.ic@.len()) {
                    Err(e) => Err(e),
                    Ok(ic) => if ic.len() == 0 {
                        Err(empty_ic())
                    } else {
                        match g2_spec(raw_g2(&raw.gamma)) {
                            Err(e) => Err(e),
                            Ok(gamma) => match g2_spec(raw_g2(&raw.delta)) {
                                Err(e) => Err(e),
                                Ok(delta) => Ok((alpha, beta, gamma, delta, ic)),
                            },
                        }
                    },
                },
            },
        },
    }
}

/// A parsed verification key.
pub struct VerifyingKey {
    alpha: G1,
    beta: G2,
    gamma: G2,
    delta: G2,
    ic: Vec<G1>,
}

pub open spec fn g1_views(ps: Seq<G1>) -> Seq<(nat, nat)> {
    ps.map_values(|p: G1| p@)
}

impl View for VerifyingKey {
    type V = VkView;

    closed spec fn view(&self) -> VkView {
        (self.alpha@, self.beta@, self.gamma@, self.delta@, g1_views(self.ic@))
    }
}

impl VerifyingKey {
    #[verifier::type_invariant]
    closed spec fn wf(self) -> bool {
        self.ic@.len() >= 1
    }

    /// Parses and checks a key.
    pub fn from_raw(raw: &RawVerifyingKey) -> (r: Result<VerifyingKey, Groth16Error>)
        ensures
            match vk_spec(raw) {
                Ok(v) => r matches Ok(k) && k@ == v,
                Err(e) => r matches Err(g) && fault(g) == e,
            },
    {
        check_header(raw.protocol.as_str(), raw.curve.as_str())?;
        let alpha = G1::parse(&raw.alpha)?;
        let beta = G2::parse(&raw.beta)?;
        let mut ic: Vec<G1> = Vec::new();
        for i in 0..raw.ic.len()
            invariant
                header_spec(raw.protocol@, raw.curve@) is Ok,
                g1_spec(raw_g1(&raw.alpha)) == Ok::<(nat, nat), (nat, Seq<char>)>(alpha@),
                g2_spec(raw_g2(&raw.beta)) == Ok::<((nat, nat), (nat, nat)), (nat, Seq<char>)>(beta@),
                ic_spec(raw_ic(raw.ic@), i as nat) matches Ok(v) && g1_views(ic@) == v,
        {
            let p = match G1::parse(&raw.ic[i]) {
                Ok(p) => p,
                Err(e) => {
                    proof {
                        assert(raw_ic(raw.ic@)[i as int] == raw_g1(&raw.ic@[i as int]));
                        assert(ic_spec(raw_ic(raw.ic@), (i + 1) as nat) == Err::<Seq<(nat, nat)>, (nat, Seq<char>)>(fault(e)));
                        lemma_ic_error_stays(raw_ic(raw.ic@), (i + 1) as nat, raw.ic@.len());
                    }
                    return Err(e);
                },
            };
            ic.push(p);
            proof {
                assert(raw_ic(raw.ic@)[i as int] == raw_g1(&raw.ic@[i as int]));
                assert(g1_views(ic@) =~= g1_views(ic@.drop_last()).push(p@));
            }
        }
        assert(raw_ic(raw.ic@).len() == raw.ic@.len());
        if ic.len() == 0 {
            return Err(Groth16Error::EmptyIc);
        }
        let gamma = G2::parse(&raw.gamma)?;
        let delta = G2::parse(&raw.delta)?;
        Ok(VerifyingKey { alpha, beta, gamma, delta, ic })
    }

    /// Number of public signals the key expects.
    pub fn public_input_count(&self) -> (r: usize)
        ensures
            r == self@.4.len() - 1,
    {
        proof {
            use_type_invariant(self);
        }
        self.ic.len() - 1
    }
}

/// A parsed proof `(A, B, C)`.
pub struct Proof {
    a: G1,
    b: G2,
    c: G1,
}

pub type ProofView = ((nat, nat), ((nat, nat), (nat, nat)), (nat, nat));

impl View for Proof {
    type V = ProofView;

    closed spec fn view(&self) -> ProofView {
        (self.a@, self.b@, self.c@)
    }
}

/// What parsing a proof gives: the header, `A`, `B`, then `C`.
pub open spec fn proof_spec(raw: &RawProof) -> Result<ProofView, (nat, Seq<char>)> {
    match header_spec(raw.protocol@, raw.curve@) {
        Err(e) => Err(e),
        Ok(_) => match g1_spec(raw_g1(&raw.a)) {
            Err(e) => Err(e),
            Ok(a) => match g2_spec(raw_g2(&raw.b)) {
                Err(e) => Err(e),
                Ok(b) => match g1_spec(raw_g1(&raw.c)) {
                    Err(e) => Err(e),
                    Ok(c) => Ok((a, b, c)),
                },
            },
        },
    }
}

impl Proof {
    /// Parses and checks a proof.
    pub fn from_raw(raw: &RawProof) -> (r: Result<Proof, Groth16Error>)
        ensures
            match proof_spec(raw) {
                Ok(v) => r matches Ok(p) && p@ == v,
                Err(e) => r matches Err(g) && fault(g) == e,
            },
    {
        check_header(raw.protocol.as_str(), raw.curve.as_str())?;
        let a = G1::parse(&raw.a)?;
        let b = G2::parse(&raw.b)?;
        let c = G1::parse(&raw.c)?;
        Ok(Proof { a, b, c })
    }
}

/// The public signals parsed in order; the first failure stops.
pub open spec fn signals_spec(items: Seq<Seq<char>>, n: nat) -> Result<Seq<nat>, (nat, Seq<char>)>
    decreases n,
{
    if n == 0 {
        Ok(Seq::empty())
    } else {
        match signals_spec(items, (n - 1) as nat) {
            Err(e) => Err(e),
            Ok(v) => match fr_parse(items[n - 1]) {
                None => Err(not_scalar(items[n - 1])),
                Some(s) => Ok(v.push(s)),
            },
        }
    }
}

proof fn lemma_signals_error_stays(items: Seq<Seq<char>>, k: nat, n: nat)
    requires
        k <= n,
        signals_spec(items, k) is Err,
    ensures
        signals_spec(items, n) == signals_spec(items, k),
    decreases n - k,
{
    if n > k {
        lemma_signals_error_stays(items, k, (n - 1) as nat);
    }
}

pub open spec fn string_views(items: Seq<String>) -> Seq<Seq<char>> {
    items.map_values(|s: String| s@)
}

/// Reads the entries of a `public.json` array as scalars.
pub fn parse_public_signals(items: &[String]) -> (r: Result<Vec<Fe>, Groth16Error>)
    ensures
        match signals_spec(string_views(items@), items@.len()) {
            Ok(v) => r matches Ok(s) && values(s@) == v,
            Err(e) => r matches Err(g) && fault(g) == e,
        },
{
    let mut out: Vec<Fe> = Vec::new();
    for i in 0..items.len()
        invariant
            signals_spec(string_views(items@), i as nat) matches Ok(v) && values(out@) == v,
    {
        assert(string_views(items@)[i as int] == items@[i as int]@);
        match fr_from_str(items[i].as_str()) {
            Some(f) => {
                out.push(f);
                assert(values(out@) =~= values(out@.drop_last()).push(f@));
            },
            None => {
                proof {
                    lemma_signals_error_stays(string_views(items@), (i + 1) as nat, items@.len());
                }
                return Err(Groth16Error::NotScalar { raw: items[i].as_str().to_owned() });
            },
        }
    }
    Ok(out)
}

// ---------------------------------------------------------------------------
// Verification
// ---------------------------------------------------------------------------

/// Whether `e(−A, B)·e(vk_x, γ)·e(C, δ)·e(α, β)` is one, as `ark-bn254`
/// computes it with `vk_x = IC[0] + Σ sᵢ·IC[i+1]`.
pub uninterp spec fn groth16_accepts(vk: VkView, signals: Seq<nat>, proof: ProofView) -> bool;

/// The pairing check: `msm_unchecked` for `vk_x`, then `multi_miller_loop`
/// and `final_exponentiation` (a zero Miller value, which has no final
/// exponentiation, is a rejection).
#[verifier::external_body]
fn groth16_check(vk: &VerifyingKey, signals: &[Fe], proof: &Proof) -> (r: bool)
    requires
        signals@.len() + 1 == vk@.4.len(),
    ensures
        r == groth16_accepts(vk@, values(signals@), proof@),
{
    let ic: Vec<G1Affine> = vk.ic.iter().map(|p| p.ark.p).collect();
    let s: Vec<BnFr> = signals.iter().map(|f| BnFr::from_le_bytes_mod_order(&f.le)).collect();
    let vk_x = (ic[0].into_group() + G1Projective::msm_unchecked(&ic[1..], &s)).into_affine();
    let ml = Bn254::multi_miller_loop(
        [-proof.a.ark.p, vk_x, proof.c.ark.p, vk.alpha.ark.p],
        [proof.b.ark.p, vk.gamma.ark.p, vk.delta.ark.p, vk.beta.ark.p],
    );
    Bn254::final_exponentiation(ml).map_or(false, |p| p.0.is_one())
}

/// Checks a proof against its public signals. An error only when the number
/// of signals does not fit the key; otherwise whether the pairing check holds.
pub fn verify(vk: &VerifyingKey, signals: &[Fe], proof: &Proof) -> (r: Result<bool, Groth16Error>)
    ensures
        r is Err <==> signals@.len() + 1 != vk@.4.len(),
        r matches Err(e) ==> e == (Groth16Error::SignalCount {
            expected: (vk@.4.len() - 1) as usize,
            got: signals@.len() as usize,
        }),
        r matches Ok(b) ==> b == groth16_accepts(vk@, values(signals@), proof@),
{
    let expected = vk.public_input_count();
    if signals.len() != expected {
        return Err(Groth16Error::SignalCount { expected, got: signals.len() });
    }
    Ok(groth16_check(vk, signals, proof))
}

} // verus!
