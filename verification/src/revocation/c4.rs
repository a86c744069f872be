//! The C4 tag binding: `C4 = EdDSA_{IDu}(poseidon(t, D2))`, in the wire
//! format of the zk-friendly circuit.
use vstd::prelude::*;

use crate::babyjub::{base8_spec, bj_mul, eddsa_valid, signed, sig_view, verify_poseidon, Point, Scalar, SecretKey, Signature};
use crate::zk_friendly::field::{poseidon, poseidon_of, values, Fe};

verus! {

/// The message C4 signs: `poseidon(t, D2x, D2y)`.
pub open spec fn tag_of(t: nat, d2: (nat, nat)) -> nat {
    poseidon_of(seq![t, d2.0, d2.1])
}

/// The C4 check: `C4` is an EdDSA-Poseidon signature by `IDu` on
/// `poseidon(t, D2)`.
pub open spec fn c4_valid(id: (nat, nat), t: nat, d2: (nat, nat), sig: (nat, nat, nat)) -> bool {
    eddsa_valid(id, tag_of(t, d2), (sig.0, sig.1), sig.2)
}

/// The message signed by C4: `poseidon(t, D2.x, D2.y)`.
pub fn tag_message(t: &Scalar, d2: &Point) -> (r: Fe)
    ensures
        r@ == tag_of(t@, d2@),
{
    let inputs = [t.to_field(), d2.x, d2.y];
    assert(values(inputs@) =~= seq![t@, d2@.0, d2@.1]);
    poseidon(&inputs)
}

/// Signs the C4 tag under the user identity key, with the nonce `r`; the
/// tag then passes the C4 check under the user's identity.
pub fn sign(user_sk: &SecretKey, t: &Scalar, d2: &Point, r: &Scalar) -> (s: Signature)
    ensures
        sig_view(s) == signed(user_sk@, r@, tag_of(t@, d2@)),
        c4_valid(bj_mul(base8_spec(), user_sk@), t@, d2@, sig_view(s)),
{
    user_sk.sign_poseidon(tag_message(t, d2), r)
}

/// Verifies `C4 = EdDSA_{IDu}(poseidon(t, D2))`.
pub fn verify(id: &Point, t: &Scalar, d2: &Point, sig: &Signature) -> (r: bool)
    ensures
        r == c4_valid(id@, t@, d2@, sig_view(*sig)),
{
    verify_poseidon(id, tag_message(t, d2), sig)
}

} // verus!
