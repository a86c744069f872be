//! The benchmark credential's constants, claim names and flat attribute
//! commitment.
use vstd::prelude::*;

use crate::text::{append_decimal, chars_to_string, decimal, str_chars};
use crate::zk_friendly::field::{
    be_value, modulus, poseidon, poseidon_of, sha256_utf8, sha256_utf8_to_field, values, Fe,
};

verus! {

pub const NUM_ATTRS: usize = 32;

/// Fixed reference instant the show inputs are built around.
pub const BASE_NOW_MS: u64 = 1_710_000_000_000;

pub const MS_PER_DAY: u64 = 24 * 60 * 60 * 1000;

/// 18 Julian years (365.25 days) in milliseconds.
pub fn eighteen_years_ms() -> (r: u64)
    ensures
        r == 18 * 36525 * MS_PER_DAY / 100,
{
    assert(MS_PER_DAY == 86_400_000);
    assert(18 * 36525 * MS_PER_DAY == 56_803_680_000_000) by (nonlinear_arith)
        requires
            MS_PER_DAY == 86_400_000,
    ;
    18 * 36525 * MS_PER_DAY / 100
}

pub fn days_ms(days: u64) -> (r: u64)
    requires
        days * MS_PER_DAY <= u64::MAX,
    ensures
        r == days * MS_PER_DAY,
{
    days * MS_PER_DAY
}

/// The instants an issued credential carries, in milliseconds.
pub struct CredentialDates {
    pub base_now_ms: u64,
    /// The latest birth date that is eighteen years before now.
    pub max_birth_date_ms: u64,
    /// A year before that.
    pub birth_date_ms: u64,
    /// A day before now.
    pub valid_from_ms: u64,
    /// A year after now.
    pub valid_until_ms: u64,
}

pub fn credential_dates() -> (d: CredentialDates)
    ensures
        d.base_now_ms == BASE_NOW_MS,
        d.max_birth_date_ms == BASE_NOW_MS - 18 * 36525 * MS_PER_DAY / 100,
        d.birth_date_ms == d.max_birth_date_ms - 365 * MS_PER_DAY,
        d.valid_from_ms == BASE_NOW_MS - MS_PER_DAY,
        d.valid_until_ms == BASE_NOW_MS + 365 * MS_PER_DAY,
{
    assert(MS_PER_DAY == 86_400_000);
    assert(18 * 36525 * MS_PER_DAY / 100 == 568_036_800_000) by (nonlinear_arith)
        requires
            MS_PER_DAY == 86_400_000,
    ;
    let max_birth_date_ms = BASE_NOW_MS - eighteen_years_ms();
    CredentialDates {
        base_now_ms: BASE_NOW_MS,
        max_birth_date_ms,
        birth_date_ms: max_birth_date_ms - days_ms(365),
        valid_from_ms: BASE_NOW_MS - days_ms(1),
        valid_until_ms: BASE_NOW_MS + days_ms(365),
    }
}

/// `sha256(text) mod p`.
pub open spec fn text_field(text: Seq<char>) -> nat {
    be_value(sha256_utf8(text)) % modulus()
}

/// The sample claim in each slot of the benchmark credential: a name, an
/// address and the dates; zero in the slots that the holder's keys fill
/// (`0`, `1`, `14`, `15`) and in the unused ones.
pub open spec fn sample_claim_value(slot: int, d: CredentialDates) -> nat {
    if slot == 2 {
        text_field("Alice"@)
    } else if slot == 3 {
        text_field("Doe"@)
    } else if slot == 4 {
        d.birth_date_ms as nat
    } else if slot == 5 {
        d.valid_from_ms as nat
    } else if slot == 6 {
        d.valid_until_ms as nat
    } else if slot == 7 {
        text_field("Main Street"@)
    } else if slot == 8 {
        12
    } else if slot == 9 {
        1000
    } else if slot == 10 {
        text_field("Lausanne"@)
    } else if slot == 11 || slot == 13 {
        text_field("VD"@)
    } else if slot == 12 {
        text_field("CH"@)
    } else {
        0
    }
}

/// The credential's sample claim values, one per slot.
pub fn sample_claim_values(dates: &CredentialDates) -> (r: Vec<Fe>)
    ensures
        r@.len() == NUM_ATTRS,
        forall|i: int| 0 <= i < NUM_ATTRS ==> #[trigger] r@[i]@ == sample_claim_value(i, *dates),
{
    let mut r: Vec<Fe> = Vec::new();
    for i in 0..NUM_ATTRS
        invariant
            r@.len() == i,
            forall|j: int| 0 <= j < i ==> #[trigger] r@[j]@ == sample_claim_value(j, *dates),
    {
        let v = if i == 2 {
            sha256_utf8_to_field("Alice")
        } else if i == 3 {
            sha256_utf8_to_field("Doe")
        } else if i == 4 {
            Fe::from_u64(dates.birth_date_ms)
        } else if i == 5 {
            Fe::from_u64(dates.valid_from_ms)
        } else if i == 6 {
            Fe::from_u64(dates.valid_until_ms)
        } else if i == 7 {
            sha256_utf8_to_field("Main Street")
        } else if i == 8 {
            Fe::from_u64(12)
        } else if i == 9 {
            Fe::from_u64(1000)
        } else if i == 10 {
            sha256_utf8_to_field("Lausanne")
        } else if i == 11 || i == 13 {
            sha256_utf8_to_field("VD")
        } else if i == 12 {
            sha256_utf8_to_field("CH")
        } else {
            Fe::from_u64(0)
        };
        r.push(v);
    }
    r
}

/// `claimName = poseidon(sha256(label) mod p)`.
pub open spec fn claim_name_spec(label: Seq<char>) -> nat {
    poseidon_of(seq![be_value(sha256_utf8(label)) % modulus()])
}

pub fn claim_name(label: &str) -> (r: Fe)
    ensures
        r@ == claim_name_spec(label@),
{
    let a = [sha256_utf8_to_field(label)];
    assert(values(a@) =~= seq![a@[0]@]);
    poseidon(&a)
}

/// The attribute labels the benchmark credential carries.
pub open spec fn labels_spec() -> Seq<Seq<char>> {
    seq![
        "IDx"@,
        "IDy"@,
        "name"@,
        "familyName"@,
        "birthDate"@,
        "validFrom"@,
        "validUntil"@,
        "addressStreet"@,
        "addressNumber"@,
        "addressLocalityNumber"@,
        "addressCity"@,
        "addressCanton"@,
        "addressCountry"@,
        "cantonOfOrigin"@,
        "attr_14"@,
        "attr_15"@,
        "attr_16"@,
        "attr_17"@,
        "attr_18"@,
        "attr_19"@,
        "attr_20"@,
        "attr_21"@,
        "attr_22"@,
        "attr_23"@,
        "attr_24"@,
        "attr_25"@,
        "attr_26"@,
        "attr_27"@,
        "attr_28"@,
        "attr_29"@,
        "attr_30"@,
        "attr_31"@,
    ]
}

pub fn labels() -> (r: Vec<&'static str>)
    ensures
        r@.map_values(|s: &'static str| s@) == labels_spec(),
{
    let r = vec![
        "IDx",
        "IDy",
        "name",
        "familyName",
        "birthDate",
        "validFrom",
        "validUntil",
        "addressStreet",
        "addressNumber",
        "addressLocalityNumber",
        "addressCity",
        "addressCanton",
        "addressCountry",
        "cantonOfOrigin",
        "attr_14",
        "attr_15",
        "attr_16",
        "attr_17",
        "attr_18",
        "attr_19",
        "attr_20",
        "attr_21",
        "attr_22",
        "attr_23",
        "attr_24",
        "attr_25",
        "attr_26",
        "attr_27",
        "attr_28",
        "attr_29",
        "attr_30",
        "attr_31",
    ];
    assert(r@.map_values(|s: &'static str| s@) =~= labels_spec());
    r
}

/// The labels of the credential without a CFT: slots 14 and 15 hold the
/// hardware key in place of `attr_14` and `attr_15`.
pub open spec fn no_cft_labels_spec() -> Seq<Seq<char>> {
    labels_spec().update(14, "hwPkX"@).update(15, "hwPkY"@)
}

pub fn no_cft_labels() -> (r: Vec<&'static str>)
    ensures
        r@.map_values(|s: &'static str| s@) == no_cft_labels_spec(),
{
    let mut r = labels();
    assert(r@.map_values(|s: &'static str| s@).len() == r@.len());
    assert(r@.len() == 32);
    r.set(14, "hwPkX");
    r.set(15, "hwPkY");
    assert(r@.map_values(|s: &'static str| s@) =~= no_cft_labels_spec());
    r
}

/// The claim names `attr_0 ... attr_{n-1}` of a synthetic credential.
pub fn attr_claim_names(n: usize) -> (r: Vec<Fe>)
    ensures
        r@.len() == n,
        forall|i: int|
            0 <= i < n ==> #[trigger] r@[i]@ == claim_name_spec("attr_"@ + decimal(i as nat)),
{
    let mut r: Vec<Fe> = Vec::new();
    for i in 0..n
        invariant
            r@.len() == i,
            forall|j: int|
                0 <= j < i ==> #[trigger] r@[j]@ == claim_name_spec("attr_"@ + decimal(j as nat)),
    {
        let mut v = str_chars("attr_");
        append_decimal(&mut v, i as u64);
        let label = chars_to_string(v.as_slice());
        r.push(claim_name(label.as_str()));
    }
    r
}

/// `acc_0 = 0`, `acc_{i+1} = poseidon(acc_i, name_i, value_i)`.
pub open spec fn flat_acc(names: Seq<nat>, values: Seq<nat>, n: nat) -> nat
    decreases n,
{
    if n == 0 {
        0
    } else {
        poseidon_of(
            seq![
                flat_acc(names, values, (n - 1) as nat),
                names[n - 1],
                values[n - 1],
            ],
        )
    }
}

/// Accumulates the flat attribute commitment over every claim.
pub fn flat_commitment(names: &[Fe], values_: &[Fe]) -> (r: Fe)
    requires
        names@.len() == values_@.len(),
    ensures
        r@ == flat_acc(values(names@), values(values_@), names@.len()),
{
    let mut acc = Fe::from_u64(0);
    for i in 0..names.len()
        invariant
            names@.len() == values_@.len(),
            acc@ == flat_acc(values(names@), values(values_@), i as nat),
    {
        let triple = [acc, names[i], values_[i]];
        assert(values(triple@) =~= seq![acc@, values(names@)[i as int], values(values_@)[i as int]]);
        acc = poseidon(&triple);
    }
    acc
}

/// The witness input of one presentation, every value a decimal string.
pub struct ShowInput {
    pub elgamal_pub_key: [String; 2],
    pub issuer_pub_key: [String; 2],
    pub t: String,
    pub now: String,
    pub max_birth_date: String,
    pub idx_claim_name: String,
    pub idy_claim_name: String,
    pub bd_claim_name: String,
    pub vf_claim_name: String,
    pub vu_claim_name: String,
    pub claim_names: Vec<String>,
    pub claim_values: Vec<String>,
    pub id_x: String,
    pub id_y: String,
    pub birth_date: String,
    pub valid_from: String,
    pub valid_until: String,
    pub sig_r: [String; 2],
    pub sig_s: String,
    pub c4_sig_r: [String; 2],
    pub c4_sig_s: String,
    pub random_val1: String,
    pub random_val2: String,
}

/// The decimal numerals of a list of field elements.
pub fn field_strings(values_: &[Fe]) -> (r: Vec<String>)
    ensures
        r@.len() == values_@.len(),
        forall|i: int| 0 <= i < values_@.len() ==> #[trigger] r@[i]@ == decimal(values_@[i]@),
{
    let mut r: Vec<String> = Vec::new();
    for i in 0..values_.len()
        invariant
            r@.len() == i,
            forall|j: int| 0 <= j < i ==> #[trigger] r@[j]@ == decimal(values_@[j]@),
    {
        r.push(values_[i].to_decimal());
    }
    r
}

/// `[x, y]` as decimal strings, the circom input encoding of a point.
pub fn point_strings(x: Fe, y: Fe) -> (r: [String; 2])
    ensures
        r[0]@ == decimal(x@),
        r[1]@ == decimal(y@),
{
    [x.to_decimal(), y.to_decimal()]
}

} // verus!
