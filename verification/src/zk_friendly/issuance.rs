//! Issuing the benchmark credential, re-issuing it with a revocation index,
//! and assembling the witness input of one presentation. The random values
//! are drawn by the caller and handed in.
use vstd::prelude::*;

use crate::babyjub::{
    base8_spec, bj_mul, eddsa_valid, sig_view, signed, Point, Scalar, SecretKey, Signature,
};
use crate::revocation::c4::{tag_message, tag_of};
use crate::text::{decimal, u64_to_string};
use crate::zk_friendly::credential::{
    claim_name, claim_name_spec, credential_dates, field_strings, flat_acc, flat_commitment, labels,
    labels_spec, point_strings, sample_claim_value, sample_claim_values, CredentialDates, ShowInput,
    BASE_NOW_MS, MS_PER_DAY, NUM_ATTRS,
};
use crate::zk_friendly::field::{values, Fe};

verus! {

/// An issued credential and the keys needed to present it.
pub struct Credential {
    pub issuer: SecretKey,
    pub issuer_pub: Point,
    pub user_sk: SecretKey,
    pub elgamal_pub: Point,
    pub dates: CredentialDates,
    pub id: Point,
    pub claim_names: Vec<Fe>,
    pub claim_values: Vec<Fe>,
    pub signature: Signature,
}

/// The flat commitment of a credential's claims.
pub open spec fn commitment_of(c: &Credential) -> nat {
    flat_acc(values(c.claim_names@), values(c.claim_values@), c.claim_names@.len())
}

/// The value issued in each slot: the holder's identity in the first two,
/// the sample claims elsewhere.
pub open spec fn issued_value(slot: int, id: (nat, nat), d: CredentialDates) -> nat {
    if slot == 0 {
        id.0
    } else if slot == 1 {
        id.1
    } else {
        sample_claim_value(slot, d)
    }
}

/// Issues the benchmark credential with the given keys and signing nonce.
/// Its signature verifies under the issuer's public key.
pub fn issue(issuer: &SecretKey, user_sk: &SecretKey, elgamal_sk: &Scalar, nonce: &Scalar) -> (c: Credential)
    ensures
        c.issuer == *issuer,
        c.user_sk == *user_sk,
        c.issuer_pub@ == bj_mul(base8_spec(), issuer@),
        c.elgamal_pub@ == bj_mul(base8_spec(), elgamal_sk@),
        c.id@ == bj_mul(base8_spec(), user_sk@),
        c.dates.base_now_ms == BASE_NOW_MS,
        c.dates.max_birth_date_ms == BASE_NOW_MS - 18 * 36525 * MS_PER_DAY / 100,
        c.dates.birth_date_ms == c.dates.max_birth_date_ms - 365 * MS_PER_DAY,
        c.dates.valid_from_ms == BASE_NOW_MS - MS_PER_DAY,
        c.dates.valid_until_ms == BASE_NOW_MS + 365 * MS_PER_DAY,
        c.claim_names@.len() == NUM_ATTRS,
        c.claim_values@.len() == NUM_ATTRS,
        forall|i: int| 0 <= i < NUM_ATTRS ==> (#[trigger] c.claim_names@[i])@ == claim_name_spec(labels_spec()[i]),
        forall|i: int| 0 <= i < NUM_ATTRS ==> (#[trigger] c.claim_values@[i])@ == issued_value(i, c.id@, c.dates),
        sig_view(c.signature) == signed(issuer@, nonce@, commitment_of(&c)),
        eddsa_valid(c.issuer_pub@, commitment_of(&c), c.signature.r8@, c.signature.s@),
{
    let dates = credential_dates();
    let id = user_sk.public_key();
    let ls = labels();
    assert(ls@.len() == NUM_ATTRS) by {
        assert(ls@.map_values(|s: &'static str| s@).len() == labels_spec().len());
    }
    let mut claim_names: Vec<Fe> = Vec::new();
    for i in 0..NUM_ATTRS
        invariant
            ls@.map_values(|s: &'static str| s@) == labels_spec(),
            ls@.len() == NUM_ATTRS,
            claim_names@.len() == i,
            forall|j: int| 0 <= j < i ==> (#[trigger] claim_names@[j])@ == claim_name_spec(labels_spec()[j]),
    {
        assert(ls@[i as int]@ == labels_spec()[i as int]);
        claim_names.push(claim_name(ls[i]));
    }
    let samples = sample_claim_values(&dates);
    let mut claim_values: Vec<Fe> = Vec::new();
    for i in 0..NUM_ATTRS
        invariant
            samples@.len() == NUM_ATTRS,
            forall|j: int| 0 <= j < NUM_ATTRS ==> #[trigger] samples@[j]@ == sample_claim_value(j, dates),
            claim_values@.len() == i,
            forall|j: int| 0 <= j < i ==> (#[trigger] claim_values@[j])@ == issued_value(j, id@, dates),
    {
        let v = if i == 0 {
            id.x
        } else if i == 1 {
            id.y
        } else {
            samples[i]
        };
        claim_values.push(v);
    }
    let commitment = flat_commitment(claim_names.as_slice(), claim_values.as_slice());
    let signature = issuer.sign_poseidon(commitment, nonce);
    Credential {
        issuer: *issuer,
        issuer_pub: issuer.public_key(),
        user_sk: *user_sk,
        elgamal_pub: Point::base8().mul(elgamal_sk),
        dates,
        id,
        claim_names,
        claim_values,
        signature,
    }
}

/// The credential re-issued with `index` in `slot`, under the claim name
/// `revocationIndex`, and signed afresh with `nonce`. The new signature
/// verifies under the issuer's public key.
pub fn with_revocation_index(c: &Credential, slot: usize, index: u64, nonce: &Scalar) -> (r: Credential)
    requires
        slot < c.claim_names@.len(),
        c.claim_names@.len() == c.claim_values@.len(),
        c.issuer_pub@ == bj_mul(base8_spec(), c.issuer@),
    ensures
        r.claim_names@ == c.claim_names@.update(slot as int, r.claim_names@[slot as int]),
        r.claim_names@[slot as int]@ == claim_name_spec("revocationIndex"@),
        r.claim_values@ == c.claim_values@.update(slot as int, r.claim_values@[slot as int]),
        r.claim_values@[slot as int]@ == index as nat,
        r.issuer == c.issuer,
        r.issuer_pub == c.issuer_pub,
        r.user_sk == c.user_sk,
        r.elgamal_pub == c.elgamal_pub,
        r.dates == c.dates,
        r.id == c.id,
        sig_view(r.signature) == signed(c.issuer@, nonce@, commitment_of(&r)),
        eddsa_valid(r.issuer_pub@, commitment_of(&r), r.signature.r8@, r.signature.s@),
{
    let mut claim_names = c.claim_names.clone();
    let mut claim_values = c.claim_values.clone();
    assert(claim_names@ == c.claim_names@);
    assert(claim_values@ == c.claim_values@);
    let name = claim_name("revocationIndex");
    claim_names.set(slot, name);
    claim_values.set(slot, Fe::from_u64(index));
    let commitment = flat_commitment(claim_names.as_slice(), claim_values.as_slice());
    let signature = c.issuer.sign_poseidon(commitment, nonce);
    Credential {
        issuer: c.issuer,
        issuer_pub: c.issuer_pub,
        user_sk: c.user_sk,
        elgamal_pub: c.elgamal_pub,
        dates: CredentialDates {
            base_now_ms: c.dates.base_now_ms,
            max_birth_date_ms: c.dates.max_birth_date_ms,
            birth_date_ms: c.dates.birth_date_ms,
            valid_from_ms: c.dates.valid_from_ms,
            valid_until_ms: c.dates.valid_until_ms,
        },
        id: c.id,
        claim_names,
        claim_values,
        signature,
    }
}

/// The decimal numeral of a scalar.
fn scalar_string(s: &Scalar) -> (r: String)
    ensures
        r@ == decimal(s@),
{
    s.to_field().to_decimal()
}

/// The witness input of one presentation at `base_now_ms + show_index`,
/// with the tag `t`, the ElGamal randomness `r1`, `r2` and the C4 nonce.
pub fn show_input(
    c: &Credential,
    show_index: u64,
    t: &Scalar,
    r1: &Scalar,
    r2: &Scalar,
    nonce: &Scalar,
) -> (i: ShowInput)
    requires
        show_index <= u64::MAX - c.dates.base_now_ms,
        c.claim_names@.len() == NUM_ATTRS,
        c.claim_values@.len() == NUM_ATTRS,
    ensures
        i.now@ == decimal((c.dates.base_now_ms + show_index) as nat),
        i.t@ == decimal(t@),
        i.random_val1@ == decimal(r1@),
        i.random_val2@ == decimal(r2@),
        i.max_birth_date@ == decimal(c.dates.max_birth_date_ms as nat),
        i.birth_date@ == decimal(c.dates.birth_date_ms as nat),
        i.valid_from@ == decimal(c.dates.valid_from_ms as nat),
        i.valid_until@ == decimal(c.dates.valid_until_ms as nat),
        i.elgamal_pub_key[0]@ == decimal(c.elgamal_pub@.0),
        i.elgamal_pub_key[1]@ == decimal(c.elgamal_pub@.1),
        i.issuer_pub_key[0]@ == decimal(c.issuer_pub@.0),
        i.issuer_pub_key[1]@ == decimal(c.issuer_pub@.1),
        i.idx_claim_name@ == decimal(c.claim_names@[0]@),
        i.idy_claim_name@ == decimal(c.claim_names@[1]@),
        i.bd_claim_name@ == decimal(c.claim_names@[4]@),
        i.vf_claim_name@ == decimal(c.claim_names@[5]@),
        i.vu_claim_name@ == decimal(c.claim_names@[6]@),
        i.claim_names@.len() == NUM_ATTRS,
        i.claim_values@.len() == NUM_ATTRS,
        forall|k: int| 0 <= k < NUM_ATTRS ==> (#[trigger] i.claim_names@[k])@ == decimal(c.claim_names@[k]@),
        forall|k: int| 0 <= k < NUM_ATTRS ==> (#[trigger] i.claim_values@[k])@ == decimal(c.claim_values@[k]@),
        i.id_x@ == decimal(c.id@.0),
        i.id_y@ == decimal(c.id@.1),
        i.sig_r[0]@ == decimal(c.signature.r8@.0),
        i.sig_r[1]@ == decimal(c.signature.r8@.1),
        i.sig_s@ == decimal(c.signature.s@),
        ({
            let c4 = signed(c.user_sk@, nonce@, tag_of(t@, bj_mul(c.elgamal_pub@, r2@)));
            &&& i.c4_sig_r[0]@ == decimal(c4.0)
            &&& i.c4_sig_r[1]@ == decimal(c4.1)
            &&& i.c4_sig_s@ == decimal(c4.2)
        }),
{
    let d2 = c.elgamal_pub.mul(r2);
    let tag = tag_message(t, &d2);
    let c4 = c.user_sk.sign_poseidon(tag, nonce);
    ShowInput {
        elgamal_pub_key: point_strings(c.elgamal_pub.x, c.elgamal_pub.y),
        issuer_pub_key: point_strings(c.issuer_pub.x, c.issuer_pub.y),
        t: scalar_string(t),
        now: u64_to_string(c.dates.base_now_ms + show_index),
        max_birth_date: u64_to_string(c.dates.max_birth_date_ms),
        idx_claim_name: c.claim_names[0].to_decimal(),
        idy_claim_name: c.claim_names[1].to_decimal(),
        bd_claim_name: c.claim_names[4].to_decimal(),
        vf_claim_name: c.claim_names[5].to_decimal(),
        vu_claim_name: c.claim_names[6].to_decimal(),
        claim_names: field_strings(c.claim_names.as_slice()),
        claim_values: field_strings(c.claim_values.as_slice()),
        id_x: c.id.x.to_decimal(),
        id_y: c.id.y.to_decimal(),
        birth_date: u64_to_string(c.dates.birth_date_ms),
        valid_from: u64_to_string(c.dates.valid_from_ms),
        valid_until: u64_to_string(c.dates.valid_until_ms),
        sig_r: point_strings(c.signature.r8.x, c.signature.r8.y),
        sig_s: scalar_string(&c.signature.s),
        c4_sig_r: point_strings(c4.r8.x, c4.r8.y),
        c4_sig_s: scalar_string(&c4.s),
        random_val1: scalar_string(r1),
        random_val2: scalar_string(r2),
    }
}

} // verus!
