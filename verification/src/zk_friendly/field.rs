//! Elements of the BN254 scalar field, the base field of Baby Jubjub, and
//! the two hashes into it: circom's Poseidon and SHA-256 read as a number.
//!
//! An element is held as its 32 little-endian bytes; its view is the number
//! they denote, always below the modulus. The field arithmetic itself is
//! `ark-ff`'s and `light-poseidon`'s, behind one wrapper per call.
use vstd::prelude::*;

use ark_ff::{BigInteger, PrimeField};
use light_poseidon::{Poseidon, PoseidonBytesHasher};
use sha2::{Digest, Sha256};

use crate::text::decimal;

verus! {

/// The order of the BN254 scalar field.
pub open spec fn modulus() -> nat {
    21888242871839275222246405745257275088548364400416034343698204186575808495617nat
}

/// The number that little-endian bytes denote.
pub open spec fn le_value(bytes: Seq<u8>) -> nat
    decreases bytes.len(),
{
    if bytes.len() == 0 {
        0
    } else {
        bytes[0] as nat + 256 * le_value(bytes.drop_first())
    }
}

/// The number that big-endian bytes denote.
pub open spec fn be_value(bytes: Seq<u8>) -> nat
    decreases bytes.len(),
{
    if bytes.len() == 0 {
        0
    } else {
        be_value(bytes.drop_last()) * 256 + bytes.last() as nat
    }
}

/// What circom's Poseidon (`light_poseidon`'s `new_circom`) gives for these
/// inputs.
pub uninterp spec fn poseidon_of(inputs: Seq<nat>) -> nat;

/// The SHA-256 digest of a text's UTF-8 bytes.
pub uninterp spec fn sha256_utf8(message: Seq<char>) -> Seq<u8>;

/// A field element.
#[derive(Clone, Copy, PartialEq, Eq, Debug)]
pub struct Fe {
    pub(crate) le: [u8; 32],
}

impl Fe {
    #[verifier::type_invariant]
    closed spec fn wf(self) -> bool {
        le_value(self.le@) < modulus()
    }

    pub closed spec fn value(self) -> nat {
        le_value(self.le@)
    }
}

impl View for Fe {
    type V = nat;

    closed spec fn view(&self) -> nat {
        self.value()
    }
}

pub open spec fn values(v: Seq<Fe>) -> Seq<nat> {
    v.map_values(|f: Fe| f@)
}

impl Fe {
    /// Every element is a residue.
    pub fn below_modulus(&self)
        ensures
            self@ < modulus(),
    {
        proof {
            use_type_invariant(self);
        }
    }

    /// `Fq::from(v)`.
    pub fn from_u64(v: u64) -> (r: Fe)
        ensures
            r@ == v as nat,
    {
        fe_from_u64(v)
    }

    /// The element's 32 little-endian bytes.
    pub fn to_le_bytes(&self) -> (r: [u8; 32])
        ensures
            le_value(r@) == self@,
    {
        self.le
    }

    /// The element whose little-endian bytes these are, or `None` when the
    /// number they denote is not below the modulus.
    pub fn from_le_bytes(bytes: [u8; 32]) -> (r: Option<Fe>)
        ensures
            r matches Some(f) ==> f@ == le_value(bytes@),
            r is None <==> le_value(bytes@) >= modulus(),
    {
        fe_from_canonical_le(bytes)
    }

    /// The decimal numeral of the element, as `Display` writes it.
    pub fn to_decimal(&self) -> (r: String)
        ensures
            r@ == decimal(self@),
    {
        proof {
            use_type_invariant(self);
        }
        field_decimal(self.le.as_slice())
    }
}

/// Two byte strings of one length that denote the same number are equal.
pub proof fn lemma_le_value_injective(a: Seq<u8>, b: Seq<u8>)
    requires
        a.len() == b.len(),
        le_value(a) == le_value(b),
    ensures
        a == b,
    decreases a.len(),
{
    if a.len() == 0 {
        assert(a =~= b);
    } else {
        let ra = le_value(a.drop_first());
        let rb = le_value(b.drop_first());
        let (a0, b0) = (a[0] as int, b[0] as int);
        assert(a0 == b0 && ra == rb) by (nonlinear_arith)
            requires
                a0 + 256 * ra == b0 + 256 * rb,
                0 <= a0 < 256,
                0 <= b0 < 256,
                ra >= 0,
                rb >= 0,
        ;
        lemma_le_value_injective(a.drop_first(), b.drop_first());
        assert(a =~= b) by {
            assert forall|i: int| 0 <= i < a.len() implies a[i] == b[i] by {
                if i > 0 {
                    assert(a[i] == a.drop_first()[i - 1]);
                    assert(b[i] == b.drop_first()[i - 1]);
                }
            }
        }
    }
}

impl Fe {
    /// A 16-bit digest of the element (its two lowest bytes): equal elements
    /// have equal digests.
    pub closed spec fn digest_spec(self) -> u64 {
        (self.le@[0] as int * 256 + self.le@[1] as int) as u64
    }

    pub fn digest(&self) -> (r: u64)
        ensures
            r == self.digest_spec(),
            r < 65536,
    {
        (self.le[0] as u64) * 256 + (self.le[1] as u64)
    }

    /// Equal elements have equal digests.
    pub proof fn lemma_equal_digest(a: Fe, b: Fe)
        requires
            a@ == b@,
        ensures
            a.digest_spec() == b.digest_spec(),
    {
        lemma_le_value_injective(a.le@, b.le@);
        assert(a.le@[0] == b.le@[0] && a.le@[1] == b.le@[1]);
    }

    /// Whether the two elements are the same number.
    pub fn same_value(&self, other: &Fe) -> (r: bool)
        ensures
            r == (self@ == other@),
    {
        let mut i: usize = 0;
        while i < 32
            invariant
                i <= 32,
                forall|k: int| 0 <= k < i ==> self.le@[k] == other.le@[k],
            decreases 32 - i,
        {
            if self.le[i] != other.le[i] {
                proof {
                    if le_value(self.le@) == le_value(other.le@) {
                        lemma_le_value_injective(self.le@, other.le@);
                    }
                }
                return false;
            }
            i = i + 1;
        }
        assert(self.le@ =~= other.le@);
        true
    }
}

/// `Fq::from(u64)`: the integer itself, which is below the modulus.
#[verifier::external_body]
fn fe_from_u64(v: u64) -> (r: Fe)
    ensures
        r@ == v as nat,
{
    Fe { le: ark_ed_on_bn254::Fq::from(v).into_bigint().to_bytes_le().try_into().expect("32 bytes") }
}

/// `PrimeField::from_bigint` on the bytes read as four little-endian 64-bit
/// limbs: `None` exactly when the number is not below the modulus, as its
/// documentation and source state; the element then keeps these bytes.
#[verifier::external_body]
fn fe_from_canonical_le(bytes: [u8; 32]) -> (r: Option<Fe>)
    ensures
        r matches Some(f) ==> f@ == le_value(bytes@),
        r is None <==> le_value(bytes@) >= modulus(),
{
    let limbs = [
        u64::from_le_bytes(bytes[0..8].try_into().expect("8 bytes")),
        u64::from_le_bytes(bytes[8..16].try_into().expect("8 bytes")),
        u64::from_le_bytes(bytes[16..24].try_into().expect("8 bytes")),
        u64::from_le_bytes(bytes[24..32].try_into().expect("8 bytes")),
    ];
    ark_ed_on_bn254::Fq::from_bigint(ark_ff::BigInt::new(limbs)).map(|_| Fe { le: bytes })
}

/// `PrimeField::from_be_bytes_mod_order`: the big-endian number reduced
/// modulo the field order, as its documentation states.
#[verifier::external_body]
fn fe_from_be_bytes_mod_order(bytes: &[u8]) -> (r: Fe)
    ensures
        r@ == be_value(bytes@) % modulus(),
{
    let le = ark_ed_on_bn254::Fq::from_be_bytes_mod_order(bytes).into_bigint().to_bytes_le();
    Fe { le: le.try_into().expect("32 bytes") }
}

/// `Display` of a field element: the decimal numeral of its canonical
/// integer (`ark-ff` writes `into_bigint()` through `BigUint`). The bytes
/// are read back with `from_le_bytes_mod_order`, which keeps a value below
/// the modulus unchanged.
#[verifier::external_body]
fn field_decimal(le: &[u8]) -> (r: String)
    requires
        le_value(le@) < modulus(),
    ensures
        r@ == decimal(le_value(le@)),
{
    ark_ed_on_bn254::Fq::from_le_bytes_mod_order(le).to_string()
}

/// `Poseidon::<Fq>::new_circom(n)` followed by `hash_bytes_le` on the
/// inputs' 32-byte little-endian encodings. Both succeed here: circom's
/// parameters exist for 1 to 12 inputs, and every input has the modulus'
/// byte length and a value below it. The digest is a field element, so its
/// value is below the modulus.
#[verifier::external_body]
fn poseidon_hash(inputs: &[Fe]) -> (r: Fe)
    requires
        1 <= inputs@.len() <= 12,
        forall|i: int| 0 <= i < inputs@.len() ==> #[trigger] inputs@[i]@ < modulus(),
    ensures
        r@ == poseidon_of(values(inputs@)),
{
    let slices: Vec<&[u8]> = inputs.iter().map(|f| f.le.as_slice()).collect();
    let mut hasher = Poseidon::<ark_ed_on_bn254::Fq>::new_circom(inputs.len()).expect("arity");
    Fe { le: hasher.hash_bytes_le(&slices).expect("canonical inputs") }
}

/// `Sha256::digest` of the text's UTF-8 bytes; the digest has 32 bytes.
#[verifier::external_body]
fn sha256_digest(message: &str) -> (r: Vec<u8>)
    ensures
        r@ == sha256_utf8(message@),
        r@.len() == 32,
{
    Sha256::digest(message.as_bytes()).to_vec()
}

/// `poseidon(inputs)`, identical to circomlib's for 1 to 12 inputs.
pub fn poseidon(inputs: &[Fe]) -> (r: Fe)
    requires
        1 <= inputs@.len() <= 12,
    ensures
        r@ == poseidon_of(values(inputs@)),
{
    let mut i: usize = 0;
    while i < inputs.len()
        invariant
            i <= inputs@.len(),
            forall|j: int| 0 <= j < i ==> #[trigger] inputs@[j]@ < modulus(),
        decreases inputs@.len() - i,
    {
        inputs[i].below_modulus();
        i = i + 1;
    }
    poseidon_hash(inputs)
}

/// `sha256(message) mod p`, the digest read big-endian.
pub fn sha256_utf8_to_field(message: &str) -> (r: Fe)
    ensures
        r@ == be_value(sha256_utf8(message@)) % modulus(),
{
    let digest = sha256_digest(message);
    fe_from_be_bytes_mod_order(digest.as_slice())
}

} // verus!
