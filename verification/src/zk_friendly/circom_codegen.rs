//! The circuit for one population scale of the packed-revocation benchmark:
//! the Merkle depth, the bits per leaf and the revocation slot are
//! compile-time constants of the circuit, so a scale sweep needs one circuit
//! per scale.
use vstd::prelude::*;

use crate::text::{append_decimal, append_str, chars_to_string, decimal, str_chars};
use crate::zk_friendly::revocation_tree::{ceil_div, packed_depth_spec, packed_merkle_depth};

verus! {

/// The circuit text up to the Merkle depth.
pub const HEAD: &'static str = r##"pragma circom 2.0.0;

include "../prove-verify/prove_verify_template.circom";
include "circuits/revocation_merkle.circom";
include "circomlib/circuits/bitify.circom";
include "circomlib/circuits/comparators.circom";

template ProveVerifyRevocation() {
    var DEPTH = "##;

/// Between the depth and the bits per leaf.
pub const DEPTH_TO_BITS: &'static str = r##";
    var BITS = "##;

/// Between the bits per leaf and the revocation slot.
pub const BITS_TO_SLOT: &'static str = r##";
    var REVOC_SLOT = "##;

/// The rest of the circuit, after the revocation slot.
pub const TAIL: &'static str = r##";

    signal input elgamalPubKey[2];
    signal input issuerPubKey[2];
    signal input t;
    signal input now;
    signal input maxBirthDate;
    signal input idxClaimName;
    signal input idyClaimName;
    signal input bdClaimName;
    signal input vfClaimName;
    signal input vuClaimName;
    signal input revClaimName;
    signal input revocationRoot;

    signal input claimNames[32];
    signal input claimValues[32];
    signal input IDx;
    signal input IDy;
    signal input birthDate;
    signal input validFrom;
    signal input validUntil;
    signal input sig_R[2];
    signal input sig_S;
    signal input c4Sig_R[2];
    signal input c4Sig_S;
    signal input randomVal1;
    signal input randomVal2;

    signal input leafIndex;
    signal input bitIndex;
    signal input leafValue;
    signal input pathElements[DEPTH];
    signal input pathIndices[DEPTH];

    component pv = ProveVerify();
    pv.elgamalPubKey <== elgamalPubKey;
    pv.issuerPubKey <== issuerPubKey;
    pv.t <== t;
    pv.now <== now;
    pv.maxBirthDate <== maxBirthDate;
    pv.idxClaimName <== idxClaimName;
    pv.idyClaimName <== idyClaimName;
    pv.bdClaimName <== bdClaimName;
    pv.vfClaimName <== vfClaimName;
    pv.vuClaimName <== vuClaimName;
    for (var a = 0; a < 32; a++) {
        pv.claimNames[a] <== claimNames[a];
        pv.claimValues[a] <== claimValues[a];
    }
    pv.IDx <== IDx;
    pv.IDy <== IDy;
    pv.birthDate <== birthDate;
    pv.validFrom <== validFrom;
    pv.validUntil <== validUntil;
    pv.sig_R[0] <== sig_R[0];
    pv.sig_R[1] <== sig_R[1];
    pv.sig_S <== sig_S;
    pv.c4Sig_R[0] <== c4Sig_R[0];
    pv.c4Sig_R[1] <== c4Sig_R[1];
    pv.c4Sig_S <== c4Sig_S;
    pv.randomVal1 <== randomVal1;
    pv.randomVal2 <== randomVal2;

    // Re-export CFT outputs (same as ProveVerify main) for the verifier wire.
    signal output c1[2];
    signal output c2[2];
    signal output c3[2];
    signal output c4_R[2];
    signal output c4_S;
    for (var c = 0; c < 2; c++) {
        c1[c] <== pv.c1[c];
        c2[c] <== pv.c2[c];
        c3[c] <== pv.c3[c];
        c4_R[c] <== pv.c4_R[c];
    }
    c4_S <== pv.c4_S;

    revClaimName === claimNames[REVOC_SLOT];

    signal credentialIndex <== claimValues[REVOC_SLOT];

    component bitBound = LessThan(8);
    bitBound.in[0] <== bitIndex;
    bitBound.in[1] <== BITS;
    bitBound.out === 1;

    signal packedOffset <== leafIndex * BITS;
    credentialIndex === packedOffset + bitIndex;

    component path = RevocationMerklePath(DEPTH);
    path.root <== revocationRoot;
    path.leaf <== leafValue;
    for (var i = 0; i < DEPTH; i++) {
        path.pathElements[i] <== pathElements[i];
        path.pathIndices[i] <== pathIndices[i];
    }

    component leafBits = Num2Bits(BITS);
    leafBits.in <== leafValue;

    component eq[BITS];
    signal acc[BITS + 1];
    acc[0] <== 0;
    for (var j = 0; j < BITS; j++) {
        eq[j] = IsEqual();
        eq[j].in[0] <== bitIndex;
        eq[j].in[1] <== j;
        acc[j + 1] <== acc[j] + eq[j].out * leafBits.out[j];
    }
    acc[BITS] === 0;
}

component main {public [
    elgamalPubKey,
    issuerPubKey,
    t,
    now,
    maxBirthDate,
    idxClaimName,
    idyClaimName,
    bdClaimName,
    vfClaimName,
    vuClaimName,
    revClaimName,
    revocationRoot
]} = ProveVerifyRevocation();
"##;

/// The circuit text for one scale.
pub open spec fn source_spec(depth: nat, bits_per_leaf: nat, revoc_slot: nat) -> Seq<char> {
    HEAD@ + decimal(depth) + DEPTH_TO_BITS@ + decimal(bits_per_leaf) + BITS_TO_SLOT@ + decimal(
        revoc_slot,
    ) + TAIL@
}

pub fn source(depth: u32, bits_per_leaf: u32, revoc_slot: usize) -> (r: String)
    ensures
        r@ == source_spec(depth as nat, bits_per_leaf as nat, revoc_slot as nat),
{
    let mut v = str_chars(HEAD);
    append_decimal(&mut v, depth as u64);
    append_str(&mut v, DEPTH_TO_BITS);
    append_decimal(&mut v, bits_per_leaf as u64);
    append_str(&mut v, BITS_TO_SLOT);
    append_decimal(&mut v, revoc_slot as u64);
    append_str(&mut v, TAIL);
    chars_to_string(v.as_slice())
}

/// What is generated for one scale.
pub struct Generated {
    pub merkle_depth: u32,
    /// File name of the circuit, relative to the benchmark directory.
    pub file_name: String,
}

/// `prove_verify_revocation<suffix>.circom`.
pub open spec fn circuit_file_name(suffix: Seq<char>) -> Seq<char> {
    "prove_verify_revocation"@ + suffix + ".circom"@
}

/// The circuit for `population` credentials: its depth, its file name and
/// its text. Writing it (only when the file differs, so a cached R1CS stays
/// newer than its source) is the caller's part.
pub fn plan_circuit(population: u64, bits_per_leaf: u32, revoc_slot: usize, suffix: &str) -> (r: (
    Generated,
    String,
))
    requires
        bits_per_leaf > 0,
        ceil_div(population as nat, bits_per_leaf as nat) <= 0x8000_0000_0000_0000,
    ensures
        r.0.merkle_depth == packed_depth_spec(population as nat, bits_per_leaf as nat),
        r.0.file_name@ == circuit_file_name(suffix@),
        r.1@ == source_spec(r.0.merkle_depth as nat, bits_per_leaf as nat, revoc_slot as nat),
{
    let merkle_depth = packed_merkle_depth(population, bits_per_leaf);
    let mut name = str_chars("prove_verify_revocation");
    append_str(&mut name, suffix);
    append_str(&mut name, ".circom");
    let file_name = chars_to_string(name.as_slice());
    let content = source(merkle_depth, bits_per_leaf, revoc_slot);
    (Generated { merkle_depth, file_name }, content)
}

} // verus!
