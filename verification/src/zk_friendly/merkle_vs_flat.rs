//! The attribute-commitment sweep: for `n` attributes of which `k` are
//! disclosed, a circuit proving `k` Merkle paths against one root, and one
//! recomputing a flat Poseidon accumulator over all `n` attributes.
use vstd::prelude::*;

use crate::text::{append_decimal, append_str, chars_to_string, decimal, str_chars};
use crate::zk_friendly::revocation_tree::{lemma_pow2_63, pow2};

verus! {

/// Which commitment scheme a point measures.
#[derive(Clone, Copy, PartialEq, Eq, Debug, Structural)]
pub enum Mode {
    Merkle,
    Flat,
}

pub open spec fn mode_prefix(mode: Mode) -> Seq<char> {
    match mode {
        Mode::Merkle => "merkle"@,
        Mode::Flat => "flat"@,
    }
}

impl Mode {
    pub fn prefix(self) -> (r: &'static str)
        ensures
            r@ == mode_prefix(self),
    {
        match self {
            Mode::Merkle => "merkle",
            Mode::Flat => "flat",
        }
    }
}

/// One point of the sweep.
pub struct Point {
    pub mode: Mode,
    pub total_attrs: usize,
    pub used_attrs: usize,
}

/// `<mode>_t<n>_u<k>`, the stem of every file of a point.
pub open spec fn label_spec(mode: Mode, total_attrs: nat, used_attrs: nat) -> Seq<char> {
    mode_prefix(mode) + "_t"@ + decimal(total_attrs) + "_u"@ + decimal(used_attrs)
}

impl Point {
    pub fn label(&self) -> (r: String)
        ensures
            r@ == label_spec(self.mode, self.total_attrs as nat, self.used_attrs as nat),
    {
        let mut v = str_chars(self.mode.prefix());
        append_str(&mut v, "_t");
        append_decimal(&mut v, self.total_attrs as u64);
        append_str(&mut v, "_u");
        append_decimal(&mut v, self.used_attrs as u64);
        chars_to_string(v.as_slice())
    }
}

/// `n.trailing_zeros()` for a positive `n`.
pub open spec fn trailing_zeros(n: nat) -> nat
    decreases n,
{
    if n == 0 || n % 2 == 1 {
        0
    } else {
        1 + trailing_zeros(n / 2)
    }
}

/// `usize::trailing_zeros`: the width of the type for zero.
pub open spec fn usize_trailing_zeros(n: usize) -> nat {
    if n == 0 {
        usize::BITS as nat
    } else {
        trailing_zeros(n as nat)
    }
}

fn count_trailing_zeros(n: usize) -> (r: u32)
    ensures
        r == usize_trailing_zeros(n),
{
    if n == 0 {
        return usize::BITS;
    }
    proof {
        lemma_pow2_63();
        assert(pow2(64) == 2 * pow2(63));
        lemma_trailing_zeros_at_most(n as nat, 63);
    }
    let mut m = n;
    let mut t: u32 = 0;
    while m % 2 == 0
        invariant
            m >= 1,
            t + trailing_zeros(m as nat) == trailing_zeros(n as nat),
            trailing_zeros(n as nat) <= 63,
        decreases m,
    {
        m = m / 2;
        t = t + 1;
    }
    t
}

proof fn lemma_trailing_zeros_at_most(n: nat, b: nat)
    requires
        n >= 1,
        n < pow2(b + 1),
    ensures
        trailing_zeros(n) <= b,
    decreases n,
{
    if n % 2 == 0 {
        assert(pow2(b + 1) == 2 * pow2(b));
        if b == 0 {
            assert(pow2(0) == 1);
        } else {
            lemma_trailing_zeros_at_most(n / 2, (b - 1) as nat);
        }
    }
}

/// The pieces `f(0) + f(1) + ... + f(n - 1)`.
pub open spec fn repeat(n: nat, f: spec_fn(nat) -> Seq<char>) -> Seq<char>
    decreases n,
{
    if n == 0 {
        Seq::empty()
    } else {
        repeat((n - 1) as nat, f) + f((n - 1) as nat)
    }
}

/// Everything of the Merkle circuit before the per-claim inputs: the path
/// template and the opening of the main template.
pub const MERKLE_HEAD: &'static str = "pragma circom 2.0.0;\n\ninclude \"circomlib/circuits/poseidon.circom\";\ninclude \"circomlib/circuits/switcher.circom\";\n\ntemplate MerkleClaimProof(depth) {\n    signal input claimName;\n    signal input claimValue;\n    signal input pathElements[depth];\n    signal input pathIndices[depth];\n    signal output root;\n\n    component nameHash = Poseidon(1);\n    nameHash.inputs[0] <== claimName;\n\n    component leafHash = Poseidon(2);\n    leafHash.inputs[0] <== nameHash.out;\n    leafHash.inputs[1] <== claimValue;\n\n    component hashers[depth];\n    component switchers[depth];\n    signal currentHash[depth + 1];\n    currentHash[0] <== leafHash.out;\n\n    for (var i = 0; i < depth; i++) {\n        switchers[i] = Switcher();\n        switchers[i].sel <== pathIndices[i];\n        switchers[i].L   <== currentHash[i];\n        switchers[i].R   <== pathElements[i];\n\n        hashers[i] = Poseidon(2);\n        hashers[i].inputs[0] <== switchers[i].outL;\n        hashers[i].inputs[1] <== switchers[i].outR;\n\n        currentHash[i + 1] <== hashers[i].out;\n    }\n\n    root <== currentHash[depth];\n}\n\ntemplate CredentialMerkleBench() {\n    signal input root;\n\n";

/// The inputs of disclosed claim `i`.
pub open spec fn merkle_inputs(depth: nat) -> spec_fn(nat) -> Seq<char> {
    |i: nat|
        "    signal input claimName_"@ + decimal(i) + ";\n    signal input claimValue_"@ + decimal(i)
            + ";\n    signal input pathElements_"@ + decimal(i) + "["@ + decimal(depth)
            + "];\n    signal input pathIndices_"@ + decimal(i) + "["@ + decimal(depth) + "];\n\n"@
}

/// The path check of disclosed claim `i` against the root.
pub open spec fn merkle_check(depth: nat) -> spec_fn(nat) -> Seq<char> {
    |i: nat|
        "    proofs["@ + decimal(i) + "] = MerkleClaimProof("@ + decimal(depth) + ");\n    proofs["@
            + decimal(i) + "].claimName <== claimName_"@ + decimal(i) + ";\n    proofs["@ + decimal(
            i,
        ) + "].claimValue <== claimValue_"@ + decimal(i) + ";\n    for (var d = 0; d < "@
            + decimal(depth) + "; d++) {\n        proofs["@ + decimal(i)
            + "].pathElements[d] <== pathElements_"@ + decimal(i) + "[d];\n        proofs["@
            + decimal(i) + "].pathIndices[d]  <== pathIndices_"@ + decimal(i)
            + "[d];\n    }\n    proofs["@ + decimal(i) + "].root === root;\n\n"@
}

pub open spec fn claim_name_input() -> spec_fn(nat) -> Seq<char> {
    |i: nat| ", claimName_"@ + decimal(i)
}

/// The circuit proving `used_attrs` Merkle paths of depth
/// `trailing_zeros(total_attrs)` against a public root.
pub open spec fn merkle_circuit_spec(total_attrs: usize, used_attrs: nat) -> Seq<char> {
    let depth = usize_trailing_zeros(total_attrs);
    MERKLE_HEAD@ + repeat(used_attrs, merkle_inputs(depth))
        + "    signal output ok;\n\n    component proofs["@ + decimal(used_attrs) + "];\n"@ + repeat(
        used_attrs,
        merkle_check(depth),
    ) + "    ok <== 1;\n}\n\ncomponent main {public [root"@ + repeat(
        used_attrs,
        claim_name_input(),
    ) + "]} = CredentialMerkleBench();\n"@
}

#[verifier::rlimit(40)]
fn append_merkle_check(v: &mut Vec<char>, n: u64, d: u64)
    ensures
        final(v)@ == old(v)@ + (merkle_check(d as nat))(n as nat),
{
    append_str(v, "    proofs[");
    append_decimal(v, n);
    append_str(v, "] = MerkleClaimProof(");
    append_decimal(v, d);
    append_str(v, ");\n    proofs[");
    append_decimal(v, n);
    append_str(v, "].claimName <== claimName_");
    append_decimal(v, n);
    append_str(v, ";\n    proofs[");
    append_decimal(v, n);
    append_str(v, "].claimValue <== claimValue_");
    append_decimal(v, n);
    append_str(v, ";\n    for (var d = 0; d < ");
    append_decimal(v, d);
    append_str(v, "; d++) {\n        proofs[");
    append_decimal(v, n);
    append_str(v, "].pathElements[d] <== pathElements_");
    append_decimal(v, n);
    append_str(v, "[d];\n        proofs[");
    append_decimal(v, n);
    append_str(v, "].pathIndices[d]  <== pathIndices_");
    append_decimal(v, n);
    append_str(v, "[d];\n    }\n    proofs[");
    append_decimal(v, n);
    append_str(v, "].root === root;\n\n");
    assert(v@ =~= old(v)@ + (merkle_check(d as nat))(n as nat));
}

#[verifier::spinoff_prover]
pub fn merkle_circuit(total_attrs: usize, used_attrs: usize) -> (r: String)
    ensures
        r@ == merkle_circuit_spec(total_attrs, used_attrs as nat),
        forall|i: nat|
            i < used_attrs ==> contains_text(r@, #[trigger] index_wiring(i)) && contains_text(
                r@,
                element_wiring(i),
            ),
{
    let depth = count_trailing_zeros(total_attrs);
    let ghost dn = depth as nat;
    let d = depth as u64;
    let mut v = str_chars(MERKLE_HEAD);
    let ghost head = v@;
    for i in 0..used_attrs
        invariant
            v@ == head + repeat(i as nat, merkle_inputs(dn)),
            d == dn,
    {
        let ghost before = v@;
        let n = i as u64;
        append_str(&mut v, "    signal input claimName_");
        append_decimal(&mut v, n);
        append_str(&mut v, ";\n    signal input claimValue_");
        append_decimal(&mut v, n);
        append_str(&mut v, ";\n    signal input pathElements_");
        append_decimal(&mut v, n);
        append_str(&mut v, "[");
        append_decimal(&mut v, d);
        append_str(&mut v, "];\n    signal input pathIndices_");
        append_decimal(&mut v, n);
        append_str(&mut v, "[");
        append_decimal(&mut v, d);
        append_str(&mut v, "];\n\n");
        assert(v@ =~= before + (merkle_inputs(dn))(i as nat));
    }
    append_str(&mut v, "    signal output ok;\n\n    component proofs[");
    append_decimal(&mut v, used_attrs as u64);
    append_str(&mut v, "];\n");
    let ghost mid = v@;
    for i in 0..used_attrs
        invariant
            v@ == mid + repeat(i as nat, merkle_check(dn)),
            d == dn,
    {
        append_merkle_check(&mut v, i as u64, d);

    }
    append_str(&mut v, "    ok <== 1;\n}\n\ncomponent main {public [root");
    let ghost tail = v@;
    for i in 0..used_attrs
        invariant
            v@ == tail + repeat(i as nat, claim_name_input()),
    {
        let ghost before = v@;
        append_str(&mut v, ", claimName_");
        append_decimal(&mut v, i as u64);
        assert(v@ =~= before + (claim_name_input())(i as nat));
    }
    append_str(&mut v, "]} = CredentialMerkleBench();\n");
    let r = chars_to_string(v.as_slice());
    proof {
        lemma_merkle_all_paths_wired(total_attrs, used_attrs as nat);
    }
    r
}

#[verifier::spinoff_prover]
proof fn lemma_merkle_all_paths_wired(total_attrs: usize, used_attrs: nat)
    ensures
        forall|i: nat|
            i < used_attrs ==> contains_text(
                merkle_circuit_spec(total_attrs, used_attrs),
                #[trigger] index_wiring(i),
            ) && contains_text(merkle_circuit_spec(total_attrs, used_attrs), element_wiring(i)),
{
    assert forall|i: nat| i < used_attrs implies contains_text(
        merkle_circuit_spec(total_attrs, used_attrs),
        #[trigger] index_wiring(i),
    ) && contains_text(merkle_circuit_spec(total_attrs, used_attrs), element_wiring(i)) by {
        lemma_merkle_paths_wired(total_attrs, used_attrs, i);
    }
}

/// The reveal inputs of claim `i`.
pub open spec fn flat_inputs() -> spec_fn(nat) -> Seq<char> {
    |i: nat|
        "    signal input revealName_"@ + decimal(i) + ";\n    signal input revealValue_"@ + decimal(i)
            + ";\n"@
}

/// The equalities binding revealed claim `i` to the credential.
pub open spec fn flat_checks() -> spec_fn(nat) -> Seq<char> {
    |i: nat|
        "    revealName_"@ + decimal(i) + " === claimNames["@ + decimal(i) + "];\n    revealValue_"@
            + decimal(i) + " === claimValues["@ + decimal(i) + "];\n"@
}

pub open spec fn reveal_inputs() -> spec_fn(nat) -> Seq<char> {
    |i: nat| ", revealName_"@ + decimal(i) + ", revealValue_"@ + decimal(i)
}

/// The circuit revealing `used_attrs` claims and recomputing the flat
/// accumulator over all `total_attrs`.
pub open spec fn flat_circuit_spec(total_attrs: nat, used_attrs: nat) -> Seq<char> {
    "pragma circom 2.0.0;\n\ninclude \"circomlib/circuits/poseidon.circom\";\n\ntemplate CredentialFlatBench() {\n    signal input flatHash;\n\n    signal input claimNames["@
        + decimal(total_attrs) + "];\n    signal input claimValues["@ + decimal(total_attrs)
        + "];\n\n"@ + repeat(used_attrs, flat_inputs()) + "\n    signal output ok;\n\n"@ + repeat(
        used_attrs,
        flat_checks(),
    ) + "\n    signal acc["@ + decimal(total_attrs)
        + " + 1];\n    acc[0] <== 0;\n    component mix["@ + decimal(total_attrs)
        + "];\n    for (var i = 0; i < "@ + decimal(total_attrs)
        + "; i++) {\n        mix[i] = Poseidon(3);\n        mix[i].inputs[0] <== acc[i];\n        mix[i].inputs[1] <== claimNames[i];\n        mix[i].inputs[2] <== claimValues[i];\n        acc[i + 1] <== mix[i].out;\n    }\n\n    flatHash === acc["@
        + decimal(total_attrs)
        + "];\n\n    ok <== 1;\n}\n\ncomponent main {public [flatHash"@ + repeat(
        used_attrs,
        reveal_inputs(),
    ) + "]} = CredentialFlatBench();\n"@
}

#[verifier::spinoff_prover]
pub fn flat_circuit(total_attrs: usize, used_attrs: usize) -> (r: String)
    ensures
        r@ == flat_circuit_spec(total_attrs as nat, used_attrs as nat),
        contains_text(r@, flat_chain(total_attrs as nat)),
{
    let t = total_attrs as u64;
    let mut v = str_chars(
        "pragma circom 2.0.0;\n\ninclude \"circomlib/circuits/poseidon.circom\";\n\ntemplate CredentialFlatBench() {\n    signal input flatHash;\n\n    signal input claimNames[",
    );
    append_decimal(&mut v, t);
    append_str(&mut v, "];\n    signal input claimValues[");
    append_decimal(&mut v, t);
    append_str(&mut v, "];\n\n");
    let ghost head = v@;
    for i in 0..used_attrs
        invariant
            v@ == head + repeat(i as nat, flat_inputs()),
    {
        let ghost before = v@;
        append_str(&mut v, "    signal input revealName_");
        append_decimal(&mut v, i as u64);
        append_str(&mut v, ";\n    signal input revealValue_");
        append_decimal(&mut v, i as u64);
        append_str(&mut v, ";\n");
        assert(v@ =~= before + (flat_inputs())(i as nat));
    }
    append_str(&mut v, "\n    signal output ok;\n\n");
    let ghost mid = v@;
    for i in 0..used_attrs
        invariant
            v@ == mid + repeat(i as nat, flat_checks()),
    {
        let ghost before = v@;
        append_str(&mut v, "    revealName_");
        append_decimal(&mut v, i as u64);
        append_str(&mut v, " === claimNames[");
        append_decimal(&mut v, i as u64);
        append_str(&mut v, "];\n    revealValue_");
        append_decimal(&mut v, i as u64);
        append_str(&mut v, " === claimValues[");
        append_decimal(&mut v, i as u64);
        append_str(&mut v, "];\n");
        assert(v@ =~= before + (flat_checks())(i as nat));
    }
    append_str(&mut v, "\n    signal acc[");
    append_decimal(&mut v, t);
    append_str(&mut v, " + 1];\n    acc[0] <== 0;\n    component mix[");
    append_decimal(&mut v, t);
    append_str(&mut v, "];\n    for (var i = 0; i < ");
    append_decimal(&mut v, t);
    append_str(
        &mut v,
        "; i++) {\n        mix[i] = Poseidon(3);\n        mix[i].inputs[0] <== acc[i];\n        mix[i].inputs[1] <== claimNames[i];\n        mix[i].inputs[2] <== claimValues[i];\n        acc[i + 1] <== mix[i].out;\n    }\n\n    flatHash === acc[",
    );
    append_decimal(&mut v, t);
    append_str(&mut v, "];\n\n    ok <== 1;\n}\n\ncomponent main {public [flatHash");
    let ghost tail = v@;
    for i in 0..used_attrs
        invariant
            v@ == tail + repeat(i as nat, reveal_inputs()),
    {
        let ghost before = v@;
        append_str(&mut v, ", revealName_");
        append_decimal(&mut v, i as u64);
        append_str(&mut v, ", revealValue_");
        append_decimal(&mut v, i as u64);
        assert(v@ =~= before + (reveal_inputs())(i as nat));
    }
    append_str(&mut v, "]} = CredentialFlatBench();\n");
    let r = chars_to_string(v.as_slice());
    proof {
        lemma_flat_circuit_chain(total_attrs as nat, used_attrs as nat);
    }
    r
}

// ---------------------------------------------------------------------------
// What the generated circuits constrain
// ---------------------------------------------------------------------------

/// `needle` occurs in `hay`.
pub open spec fn contains_text(hay: Seq<char>, needle: Seq<char>) -> bool {
    exists|k: int|
        0 <= k && k + needle.len() <= hay.len() && #[trigger] hay.subrange(k, k + needle.len())
            == needle
}

proof fn lemma_contains_middle(a: Seq<char>, needle: Seq<char>, b: Seq<char>)
    ensures
        contains_text(a + needle + b, needle),
{
    let h = a + needle + b;
    assert(h.subrange(a.len() as int, (a.len() + needle.len()) as int) =~= needle);
}

#[verifier::spinoff_prover]
proof fn lemma_contains_within(a: Seq<char>, s: Seq<char>, b: Seq<char>, needle: Seq<char>)
    requires
        contains_text(s, needle),
    ensures
        contains_text(a + s + b, needle),
{
    let k = choose|k: int|
        0 <= k && k + needle.len() <= s.len() && #[trigger] s.subrange(k, k + needle.len()) == needle;
    let h = a + s + b;
    assert(h.subrange(a.len() + k, a.len() + k + needle.len()) =~= s.subrange(k, k + needle.len()));
    assert(0 <= a.len() + k && a.len() + k + needle.len() <= h.len());
}

#[verifier::spinoff_prover]
proof fn lemma_repeat_contains(n: nat, f: spec_fn(nat) -> Seq<char>, i: nat, needle: Seq<char>)
    requires
        i < n,
        contains_text(f(i), needle),
    ensures
        contains_text(repeat(n, f), needle),
    decreases n,
{
    let prev = repeat((n - 1) as nat, f);
    if i == n - 1 {
        lemma_contains_within(prev, f(i), Seq::empty(), needle);
        assert(prev + f(i) + Seq::<char>::empty() =~= repeat(n, f));
    } else {
        lemma_repeat_contains((n - 1) as nat, f, i, needle);
        lemma_contains_within(Seq::empty(), prev, f((n - 1) as nat), needle);
        assert(Seq::<char>::empty() + prev + f((n - 1) as nat) =~= repeat(n, f));
    }
}

/// The constraint wiring the switcher selectors of disclosed claim `i` to
/// its path indices.
pub open spec fn index_wiring(i: nat) -> Seq<char> {
    "proofs["@ + decimal(i) + "].pathIndices[d]"@ + "  <== pathIndices_"@ + decimal(i) + "[d];"@
}

/// The constraint wiring the siblings of disclosed claim `i` to its path
/// elements.
pub open spec fn element_wiring(i: nat) -> Seq<char> {
    "proofs["@ + decimal(i) + "].pathElements[d]"@ + " <== pathElements_"@ + decimal(i) + "[d];"@
}

/// Every disclosed claim's path check takes its switcher selectors from that
/// claim's `pathIndices` input and its siblings from its `pathElements`
/// input.
#[verifier::spinoff_prover]
pub proof fn lemma_merkle_paths_wired(total_attrs: usize, used_attrs: nat, i: nat)
    requires
        i < used_attrs,
    ensures
        contains_text(merkle_circuit_spec(total_attrs, used_attrs), index_wiring(i)),
        contains_text(merkle_circuit_spec(total_attrs, used_attrs), element_wiring(i)),
{
    reveal_strlit("[d];\n        proofs[");
    reveal_strlit("[d];\n        ");
    reveal_strlit("proofs[");
    reveal_strlit("[d];\n    }\n    proofs[");
    reveal_strlit("[d];");
    reveal_strlit("\n    }\n    proofs[");
    reveal_strlit("; d++) {\n        proofs[");
    reveal_strlit("; d++) {\n        ");
    reveal_strlit("\n        proofs[");
    assert("[d];\n        proofs["@ =~= "[d];\n        "@ + "proofs["@);
    assert("[d];\n    }\n    proofs["@ =~= "[d];"@ + "\n    }\n    proofs["@);
    assert("; d++) {\n        proofs["@ =~= "; d++) {\n        "@ + "proofs["@);
    assert("[d];\n        proofs["@ =~= "[d];"@ + "\n        proofs["@);
    reveal_strlit("].pathIndices[d]  <== pathIndices_");
    reveal_strlit("].pathIndices[d]");
    reveal_strlit("  <== pathIndices_");
    reveal_strlit("].pathElements[d] <== pathElements_");
    reveal_strlit("].pathElements[d]");
    reveal_strlit(" <== pathElements_");
    assert("].pathIndices[d]  <== pathIndices_"@ =~= "].pathIndices[d]"@ + "  <== pathIndices_"@);
    assert("].pathElements[d] <== pathElements_"@ =~= "].pathElements[d]"@ + " <== pathElements_"@);
    let depth = usize_trailing_zeros(total_attrs);
    let di = decimal(i);
    let dd = decimal(depth);
    let head = "    proofs["@ + di + "] = MerkleClaimProof("@ + dd + ");\n    proofs["@ + di
        + "].claimName <== claimName_"@ + di + ";\n    proofs["@ + di
        + "].claimValue <== claimValue_"@ + di + ";\n    for (var d = 0; d < "@ + dd;
    let check = (merkle_check(depth))(i);
    let pre_i = head + "; d++) {\n        proofs["@ + di + "].pathElements[d] <== pathElements_"@
        + di + "[d];\n        "@;
    let post_i = "\n    }\n    proofs["@ + di + "].root === root;\n\n"@;
    assert(check =~= pre_i + index_wiring(i) + post_i);
    lemma_contains_middle(pre_i, index_wiring(i), post_i);
    let pre_e = head + "; d++) {\n        "@;
    let post_e = "\n        proofs["@ + di + "].pathIndices[d]  <== pathIndices_"@ + di
        + "[d];\n    }\n    proofs["@ + di + "].root === root;\n\n"@;
    assert(check =~= pre_e + element_wiring(i) + post_e);
    lemma_contains_middle(pre_e, element_wiring(i), post_e);
    lemma_repeat_contains(used_attrs, merkle_check(depth), i, index_wiring(i));
    lemma_repeat_contains(used_attrs, merkle_check(depth), i, element_wiring(i));
    let checks = repeat(used_attrs, merkle_check(depth));
    let a = MERKLE_HEAD@ + repeat(used_attrs, merkle_inputs(depth))
        + "    signal output ok;\n\n    component proofs["@ + decimal(used_attrs) + "];\n"@;
    let b = "    ok <== 1;\n}\n\ncomponent main {public [root"@ + repeat(used_attrs, claim_name_input())
        + "]} = CredentialMerkleBench();\n"@;
    assert(merkle_circuit_spec(total_attrs, used_attrs) =~= a + checks + b);
    lemma_contains_within(a, checks, b, index_wiring(i));
    lemma_contains_within(a, checks, b, element_wiring(i));
}

#[verifier::spinoff_prover]
proof fn lemma_check_in_circuit(total_attrs: usize, used_attrs: nat, i: nat, needle: Seq<char>)
    requires
        i < used_attrs,
        contains_text((merkle_check(usize_trailing_zeros(total_attrs)))(i), needle),
    ensures
        contains_text(merkle_circuit_spec(total_attrs, used_attrs), needle),
{
    let depth = usize_trailing_zeros(total_attrs);
    lemma_repeat_contains(used_attrs, merkle_check(depth), i, needle);
    let checks = repeat(used_attrs, merkle_check(depth));
    let a = MERKLE_HEAD@ + repeat(used_attrs, merkle_inputs(depth))
        + "    signal output ok;\n\n    component proofs["@ + decimal(used_attrs) + "];\n"@;
    let b = "    ok <== 1;\n}\n\ncomponent main {public [root"@ + repeat(used_attrs, claim_name_input())
        + "]} = CredentialMerkleBench();\n"@;
    assert(merkle_circuit_spec(total_attrs, used_attrs) =~= a + checks + b);
    lemma_contains_within(a, checks, b, needle);
}

/// The instance of the path template for disclosed claim `i`, of depth
/// `depth`.
pub open spec fn claim_instance(i: nat, depth: nat) -> Seq<char> {
    "proofs["@ + decimal(i) + "]"@ + " = MerkleClaimProof("@ + decimal(depth) + ");"@
}

/// The constraint feeding disclosed claim `i`'s name into its leaf.
pub open spec fn name_wiring(i: nat) -> Seq<char> {
    "proofs["@ + decimal(i) + "].claimName"@ + " <== claimName_"@ + decimal(i) + ";"@
}

/// The constraint feeding disclosed claim `i`'s value into its leaf.
pub open spec fn value_wiring(i: nat) -> Seq<char> {
    "proofs["@ + decimal(i) + "].claimValue"@ + " <== claimValue_"@ + decimal(i) + ";"@
}

/// The wiring loop runs over all `depth` levels of a path.
pub open spec fn level_loop(depth: nat) -> Seq<char> {
    "for (var d = 0;"@ + " d < "@ + decimal(depth) + "; d++)"@
}

/// The path of disclosed claim `i` must end at the public root.
pub open spec fn root_check(i: nat) -> Seq<char> {
    "proofs["@ + decimal(i) + "].root"@ + " === root;"@
}

/// Every disclosed claim gets its own path check of depth
/// `trailing_zeros(total_attrs)`, fed with that claim's name and value,
/// wired over every level, and bound to the public root.
#[verifier::spinoff_prover]
pub proof fn lemma_merkle_claims_bound(total_attrs: usize, used_attrs: nat, i: nat)
    requires
        i < used_attrs,
    ensures
        contains_text(
            merkle_circuit_spec(total_attrs, used_attrs),
            claim_instance(i, usize_trailing_zeros(total_attrs)),
        ),
        contains_text(merkle_circuit_spec(total_attrs, used_attrs), name_wiring(i)),
        contains_text(merkle_circuit_spec(total_attrs, used_attrs), value_wiring(i)),
        contains_text(
            merkle_circuit_spec(total_attrs, used_attrs),
            level_loop(usize_trailing_zeros(total_attrs)),
        ),
        contains_text(merkle_circuit_spec(total_attrs, used_attrs), root_check(i)),
{
    let depth = usize_trailing_zeros(total_attrs);
    lemma_instance_in_check(depth, i);
    lemma_check_in_circuit(total_attrs, used_attrs, i, claim_instance(i, depth));
    lemma_name_in_check(depth, i);
    lemma_check_in_circuit(total_attrs, used_attrs, i, name_wiring(i));
    lemma_value_in_check(depth, i);
    lemma_check_in_circuit(total_attrs, used_attrs, i, value_wiring(i));
    lemma_loop_in_check(depth, i);
    lemma_check_in_circuit(total_attrs, used_attrs, i, level_loop(depth));
    lemma_root_in_check(depth, i);
    lemma_check_in_circuit(total_attrs, used_attrs, i, root_check(i));
}

/// The part of a path check after its level loop begins.
spec fn check_after_loop(i: nat) -> Seq<char> {
    "; d++) {\n        proofs["@ + decimal(i) + "].pathElements[d] <== pathElements_"@ + decimal(i)
        + "[d];\n        proofs["@ + decimal(i) + "].pathIndices[d]  <== pathIndices_"@ + decimal(i)
        + "[d];\n    }\n    proofs["@ + decimal(i) + "].root === root;\n\n"@
}

#[verifier::spinoff_prover]
proof fn lemma_instance_in_check(depth: nat, i: nat)
    ensures
        contains_text((merkle_check(depth))(i), claim_instance(i, depth)),
{
    reveal_strlit("    proofs[");
    reveal_strlit("    ");
    reveal_strlit("proofs[");
    reveal_strlit("] = MerkleClaimProof(");
    reveal_strlit("]");
    reveal_strlit(" = MerkleClaimProof(");
    reveal_strlit(");\n    proofs[");
    reveal_strlit(");");
    reveal_strlit("\n    proofs[");
    assert("    proofs["@ =~= "    "@ + "proofs["@);
    assert("] = MerkleClaimProof("@ =~= "]"@ + " = MerkleClaimProof("@);
    assert(");\n    proofs["@ =~= ");"@ + "\n    proofs["@);
    let di = decimal(i);
    let post = "\n    proofs["@ + di + "].claimName <== claimName_"@ + di + ";\n    proofs["@ + di
        + "].claimValue <== claimValue_"@ + di + ";\n    for (var d = 0; d < "@ + decimal(depth)
        + check_after_loop(i);
    assert((merkle_check(depth))(i) =~= "    "@ + claim_instance(i, depth) + post);
    lemma_contains_middle("    "@, claim_instance(i, depth), post);
}

#[verifier::spinoff_prover]
proof fn lemma_name_in_check(depth: nat, i: nat)
    ensures
        contains_text((merkle_check(depth))(i), name_wiring(i)),
{
    reveal_strlit(");\n    proofs[");
    reveal_strlit(");\n    ");
    reveal_strlit("proofs[");
    reveal_strlit("].claimName <== claimName_");
    reveal_strlit("].claimName");
    reveal_strlit(" <== claimName_");
    reveal_strlit(";\n    proofs[");
    reveal_strlit(";");
    reveal_strlit("\n    proofs[");
    assert(");\n    proofs["@ =~= ");\n    "@ + "proofs["@);
    assert("].claimName <== claimName_"@ =~= "].claimName"@ + " <== claimName_"@);
    assert(";\n    proofs["@ =~= ";"@ + "\n    proofs["@);
    let di = decimal(i);
    let pre = "    proofs["@ + di + "] = MerkleClaimProof("@ + decimal(depth) + ");\n    "@;
    let post = "\n    proofs["@ + di + "].claimValue <== claimValue_"@ + di
        + ";\n    for (var d = 0; d < "@ + decimal(depth) + check_after_loop(i);
    assert((merkle_check(depth))(i) =~= pre + name_wiring(i) + post);
    lemma_contains_middle(pre, name_wiring(i), post);
}

#[verifier::spinoff_prover]
proof fn lemma_value_in_check(depth: nat, i: nat)
    ensures
        contains_text((merkle_check(depth))(i), value_wiring(i)),
{
    reveal_strlit(";\n    proofs[");
    reveal_strlit(";\n    ");
    reveal_strlit("proofs[");
    reveal_strlit("].claimValue <== claimValue_");
    reveal_strlit("].claimValue");
    reveal_strlit(" <== claimValue_");
    reveal_strlit(";\n    for (var d = 0; d < ");
    reveal_strlit(";");
    reveal_strlit("\n    for (var d = 0; d < ");
    assert(";\n    proofs["@ =~= ";\n    "@ + "proofs["@);
    assert("].claimValue <== claimValue_"@ =~= "].claimValue"@ + " <== claimValue_"@);
    assert(";\n    for (var d = 0; d < "@ =~= ";"@ + "\n    for (var d = 0; d < "@);
    let di = decimal(i);
    let pre = "    proofs["@ + di + "] = MerkleClaimProof("@ + decimal(depth) + ");\n    proofs["@
        + di + "].claimName <== claimName_"@ + di + ";\n    "@;
    let post = "\n    for (var d = 0; d < "@ + decimal(depth) + check_after_loop(i);
    assert((merkle_check(depth))(i) =~= pre + value_wiring(i) + post);
    lemma_contains_middle(pre, value_wiring(i), post);
}

#[verifier::spinoff_prover]
proof fn lemma_loop_in_check(depth: nat, i: nat)
    ensures
        contains_text((merkle_check(depth))(i), level_loop(depth)),
{
    reveal_strlit(";\n    for (var d = 0; d < ");
    reveal_strlit(";\n    ");
    reveal_strlit("for (var d = 0;");
    reveal_strlit(" d < ");
    reveal_strlit("; d++) {\n        proofs[");
    reveal_strlit("; d++)");
    reveal_strlit(" {\n        proofs[");
    assert(";\n    for (var d = 0; d < "@ =~= ";\n    "@ + "for (var d = 0;"@ + " d < "@);
    assert("; d++) {\n        proofs["@ =~= "; d++)"@ + " {\n        proofs["@);
    let di = decimal(i);
    let pre = "    proofs["@ + di + "] = MerkleClaimProof("@ + decimal(depth) + ");\n    proofs["@
        + di + "].claimName <== claimName_"@ + di + ";\n    proofs["@ + di
        + "].claimValue <== claimValue_"@ + di + ";\n    "@;
    let post = " {\n        proofs["@ + di + "].pathElements[d] <== pathElements_"@ + di
        + "[d];\n        proofs["@ + di + "].pathIndices[d]  <== pathIndices_"@ + di
        + "[d];\n    }\n    proofs["@ + di + "].root === root;\n\n"@;
    assert((merkle_check(depth))(i) =~= pre + level_loop(depth) + post);
    lemma_contains_middle(pre, level_loop(depth), post);
}

#[verifier::spinoff_prover]
proof fn lemma_root_in_check(depth: nat, i: nat)
    ensures
        contains_text((merkle_check(depth))(i), root_check(i)),
{
    reveal_strlit("[d];\n    }\n    proofs[");
    reveal_strlit("[d];\n    }\n    ");
    reveal_strlit("proofs[");
    reveal_strlit("].root === root;\n\n");
    reveal_strlit("].root");
    reveal_strlit(" === root;");
    reveal_strlit("\n\n");
    assert("[d];\n    }\n    proofs["@ =~= "[d];\n    }\n    "@ + "proofs["@);
    assert("].root === root;\n\n"@ =~= "].root"@ + " === root;"@ + "\n\n"@);
    let di = decimal(i);
    let pre = "    proofs["@ + di + "] = MerkleClaimProof("@ + decimal(depth) + ");\n    proofs["@
        + di + "].claimName <== claimName_"@ + di + ";\n    proofs["@ + di
        + "].claimValue <== claimValue_"@ + di + ";\n    for (var d = 0; d < "@ + decimal(depth)
        + "; d++) {\n        proofs["@ + di + "].pathElements[d] <== pathElements_"@ + di
        + "[d];\n        proofs["@ + di + "].pathIndices[d]  <== pathIndices_"@ + di
        + "[d];\n    }\n    "@;
    assert((merkle_check(depth))(i) =~= pre + root_check(i) + "\n\n"@);
    lemma_contains_middle(pre, root_check(i), "\n\n"@);
}

/// The constraints of the path template: the leaf is
/// `Poseidon(Poseidon(claimName), claimValue)`; at each level the path index
/// selects which side the running hash and the sibling go to before they are
/// hashed; the root is the hash after the last level.
pub open spec fn path_template_constraints() -> Seq<Seq<char>> {
    seq![
        "nameHash.inputs[0]"@ + " <== claimName;"@,
        "leafHash.inputs[0]"@ + " <== nameHash.out;"@,
        "leafHash.inputs[1]"@ + " <== claimValue;"@,
        "currentHash[0]"@ + " <== leafHash.out;"@,
        "switchers[i].sel"@ + " <== pathIndices[i];"@,
        "switchers[i].L"@ + "   <== currentHash[i];"@,
        "switchers[i].R"@ + "   <== pathElements[i];"@,
        "hashers[i].inputs[0]"@ + " <== switchers[i].outL;"@,
        "hashers[i].inputs[1]"@ + " <== switchers[i].outR;"@,
        "currentHash[i + 1]"@ + " <== hashers[i].out;"@,
        "root"@ + " <== currentHash[depth];"@,
    ]
}

proof fn lemma_window_contains(hay: Seq<char>, k: int, needle: Seq<char>)
    requires
        0 <= k,
        k + needle.len() <= hay.len(),
        hay.subrange(k, k + needle.len()) == needle,
    ensures
        contains_text(hay, needle),
{
}

/// Every Merkle circuit checks each disclosed path with the same template:
/// the leaf binds the claim's name and value, every level orders the running
/// hash and the sibling by the path index, and the template's output is the
/// hash after the last level.
#[verifier::spinoff_prover]
pub proof fn lemma_merkle_template(total_attrs: usize, used_attrs: nat, j: int)
    requires
        0 <= j < path_template_constraints().len(),
    ensures
        contains_text(merkle_circuit_spec(total_attrs, used_attrs), path_template_constraints()[j]),
{
    lemma_head_constraints();
    let depth = usize_trailing_zeros(total_attrs);
    let rest = repeat(used_attrs, merkle_inputs(depth))
        + "    signal output ok;\n\n    component proofs["@ + decimal(used_attrs) + "];\n"@ + repeat(
        used_attrs,
        merkle_check(depth),
    ) + "    ok <== 1;\n}\n\ncomponent main {public [root"@ + repeat(
        used_attrs,
        claim_name_input(),
    ) + "]} = CredentialMerkleBench();\n"@;
    assert(merkle_circuit_spec(total_attrs, used_attrs) =~= Seq::<char>::empty() + MERKLE_HEAD@ + rest);
    lemma_contains_within(Seq::empty(), MERKLE_HEAD@, rest, path_template_constraints()[j]);
}

#[verifier::rlimit(60)]
#[verifier::spinoff_prover]
proof fn lemma_head_constraints()
    ensures
        forall|j: int|
            0 <= j < path_template_constraints().len() ==> contains_text(
                MERKLE_HEAD@,
                #[trigger] path_template_constraints()[j],
            ),
{
    reveal_strlit("pragma circom 2.0.0;\n\ninclude \"circomlib/circuits/poseidon.circom\";\ninclude \"circomlib/circuits/switcher.circom\";\n\ntemplate MerkleClaimProof(depth) {\n    signal input claimName;\n    signal input claimValue;\n    signal input pathElements[depth];\n    signal input pathIndices[depth];\n    signal output root;\n\n    component nameHash = Poseidon(1);\n    nameHash.inputs[0] <== claimName;\n\n    component leafHash = Poseidon(2);\n    leafHash.inputs[0] <== nameHash.out;\n    leafHash.inputs[1] <== claimValue;\n\n    component hashers[depth];\n    component switchers[depth];\n    signal currentHash[depth + 1];\n    currentHash[0] <== leafHash.out;\n\n    for (var i = 0; i < depth; i++) {\n        switchers[i] = Switcher();\n        switchers[i].sel <== pathIndices[i];\n        switchers[i].L   <== currentHash[i];\n        switchers[i].R   <== pathElements[i];\n\n        hashers[i] = Poseidon(2);\n        hashers[i].inputs[0] <== switchers[i].outL;\n        hashers[i].inputs[1] <== switchers[i].outR;\n\n        currentHash[i + 1] <== hashers[i].out;\n    }\n\n    root <== currentHash[depth];\n}\n\ntemplate CredentialMerkleBench() {\n    signal input root;\n\n");
    reveal_strlit("nameHash.inputs[0]");
    reveal_strlit(" <== claimName;");
    reveal_strlit("leafHash.inputs[0]");
    reveal_strlit(" <== nameHash.out;");
    reveal_strlit("leafHash.inputs[1]");
    reveal_strlit(" <== claimValue;");
    reveal_strlit("currentHash[0]");
    reveal_strlit(" <== leafHash.out;");
    reveal_strlit("switchers[i].sel");
    reveal_strlit(" <== pathIndices[i];");
    reveal_strlit("switchers[i].L");
    reveal_strlit("   <== currentHash[i];");
    reveal_strlit("switchers[i].R");
    reveal_strlit("   <== pathElements[i];");
    reveal_strlit("hashers[i].inputs[0]");
    reveal_strlit(" <== switchers[i].outL;");
    reveal_strlit("hashers[i].inputs[1]");
    reveal_strlit(" <== switchers[i].outR;");
    reveal_strlit("currentHash[i + 1]");
    reveal_strlit(" <== hashers[i].out;");
    reveal_strlit("root");
    reveal_strlit(" <== currentHash[depth];");
    let t = path_template_constraints();
    assert(MERKLE_HEAD@.subrange(349, 382) =~= t[0]);
    lemma_window_contains(MERKLE_HEAD@, 349, t[0]);
    assert(MERKLE_HEAD@.subrange(426, 462) =~= t[1]);
    lemma_window_contains(MERKLE_HEAD@, 426, t[1]);
    assert(MERKLE_HEAD@.subrange(467, 501) =~= t[2]);
    lemma_window_contains(MERKLE_HEAD@, 467, t[2]);
    assert(MERKLE_HEAD@.subrange(604, 636) =~= t[3]);
    lemma_window_contains(MERKLE_HEAD@, 604, t[3]);
    assert(MERKLE_HEAD@.subrange(719, 755) =~= t[4]);
    lemma_window_contains(MERKLE_HEAD@, 719, t[4]);
    assert(MERKLE_HEAD@.subrange(764, 800) =~= t[5]);
    lemma_window_contains(MERKLE_HEAD@, 764, t[5]);
    assert(MERKLE_HEAD@.subrange(809, 846) =~= t[6]);
    lemma_window_contains(MERKLE_HEAD@, 809, t[6]);
    assert(MERKLE_HEAD@.subrange(890, 933) =~= t[7]);
    lemma_window_contains(MERKLE_HEAD@, 890, t[7]);
    assert(MERKLE_HEAD@.subrange(942, 985) =~= t[8]);
    lemma_window_contains(MERKLE_HEAD@, 942, t[8]);
    assert(MERKLE_HEAD@.subrange(995, 1033) =~= t[9]);
    lemma_window_contains(MERKLE_HEAD@, 995, t[9]);
    assert(MERKLE_HEAD@.subrange(1045, 1073) =~= t[10]);
    lemma_window_contains(MERKLE_HEAD@, 1045, t[10]);
}

/// The accumulator of the flat circuit over `n` claims: `acc[0] = 0`,
/// `acc[i + 1] = Poseidon(acc[i], claimNames[i], claimValues[i])` for every
/// `i < n`, and `flatHash === acc[n]`, the chain `flat_acc` computes.
pub open spec fn flat_chain(n: nat) -> Seq<char> {
    "acc[0] <== 0;\n    component mix["@ + decimal(n) + "];\n    for (var i = 0; i < "@ + decimal(n)
        + loop_body() + decimal(n) + "];"@
}

/// One step of the accumulator loop, then the final equality.
pub open spec fn loop_body() -> Seq<char> {
    "; i++) {\n        mix[i] = Poseidon(3);\n"@ + "        mix[i].inputs[0] <== acc[i];\n"@
        + "        mix[i].inputs[1] <== claimNames[i];\n"@ + "        mix[i].inputs[2] <== claimValues[i];\n"@
        + "        acc[i + 1] <== mix[i].out;\n    }\n\n    flatHash === acc["@
}

/// The flat circuit binds `flatHash` to the Poseidon chain over every
/// claim's name and then value.
#[verifier::spinoff_prover]
pub proof fn lemma_flat_circuit_chain(total_attrs: nat, used_attrs: nat)
    ensures
        contains_text(flat_circuit_spec(total_attrs, used_attrs), flat_chain(total_attrs)),
{
    reveal_strlit(" + 1];\n    acc[0] <== 0;\n    component mix[");
    reveal_strlit(" + 1];\n    ");
    reveal_strlit("acc[0] <== 0;\n    component mix[");
    reveal_strlit("];\n\n    ok <== 1;\n}\n\ncomponent main {public [flatHash");
    reveal_strlit("];");
    reveal_strlit("\n\n    ok <== 1;\n}\n\ncomponent main {public [flatHash");
    reveal_strlit("; i++) {\n        mix[i] = Poseidon(3);\n");
    reveal_strlit("        mix[i].inputs[0] <== acc[i];\n");
    reveal_strlit("        mix[i].inputs[1] <== claimNames[i];\n");
    reveal_strlit("        mix[i].inputs[2] <== claimValues[i];\n");
    reveal_strlit("        acc[i + 1] <== mix[i].out;\n    }\n\n    flatHash === acc[");
    reveal_strlit(
        "; i++) {\n        mix[i] = Poseidon(3);\n        mix[i].inputs[0] <== acc[i];\n        mix[i].inputs[1] <== claimNames[i];\n        mix[i].inputs[2] <== claimValues[i];\n        acc[i + 1] <== mix[i].out;\n    }\n\n    flatHash === acc[",
    );
    assert("; i++) {\n        mix[i] = Poseidon(3);\n        mix[i].inputs[0] <== acc[i];\n        mix[i].inputs[1] <== claimNames[i];\n        mix[i].inputs[2] <== claimValues[i];\n        acc[i + 1] <== mix[i].out;\n    }\n\n    flatHash === acc["@
        =~= loop_body());
    assert(" + 1];\n    acc[0] <== 0;\n    component mix["@ =~= " + 1];\n    "@
        + "acc[0] <== 0;\n    component mix["@);
    assert("];\n\n    ok <== 1;\n}\n\ncomponent main {public [flatHash"@ =~= "];"@
        + "\n\n    ok <== 1;\n}\n\ncomponent main {public [flatHash"@);
    let dt = decimal(total_attrs);
    let pre = "pragma circom 2.0.0;\n\ninclude \"circomlib/circuits/poseidon.circom\";\n\ntemplate CredentialFlatBench() {\n    signal input flatHash;\n\n    signal input claimNames["@
        + dt + "];\n    signal input claimValues["@ + dt + "];\n\n"@ + repeat(
        used_attrs,
        flat_inputs(),
    ) + "\n    signal output ok;\n\n"@ + repeat(used_attrs, flat_checks()) + "\n    signal acc["@
        + dt + " + 1];\n    "@;
    let post = "\n\n    ok <== 1;\n}\n\ncomponent main {public [flatHash"@ + repeat(
        used_attrs,
        reveal_inputs(),
    ) + "]} = CredentialFlatBench();\n"@;
    assert(flat_circuit_spec(total_attrs, used_attrs) =~= pre + flat_chain(total_attrs) + post);
    lemma_contains_middle(pre, flat_chain(total_attrs), post);
}

/// The equality binding revealed name `i` to the credential's name `i`.
pub open spec fn reveal_name_binding(i: nat) -> Seq<char> {
    "revealName_"@ + decimal(i) + " === "@ + "claimNames["@ + decimal(i) + "];"@
}

/// The equality binding revealed value `i` to the credential's value `i`.
pub open spec fn reveal_value_binding(i: nat) -> Seq<char> {
    "revealValue_"@ + decimal(i) + " === "@ + "claimValues["@ + decimal(i) + "];"@
}

/// Every revealed claim `i < used_attrs` is bound to the credential's claim
/// at the same index, its name to its name and its value to its value.
#[verifier::spinoff_prover]
pub proof fn lemma_flat_reveals_bound(total_attrs: nat, used_attrs: nat, i: nat)
    requires
        i < used_attrs,
    ensures
        contains_text(flat_circuit_spec(total_attrs, used_attrs), reveal_name_binding(i)),
        contains_text(flat_circuit_spec(total_attrs, used_attrs), reveal_value_binding(i)),
{
    lemma_reveals_in_check(i);
    let dt = decimal(total_attrs);
    let a = "pragma circom 2.0.0;\n\ninclude \"circomlib/circuits/poseidon.circom\";\n\ntemplate CredentialFlatBench() {\n    signal input flatHash;\n\n    signal input claimNames["@
        + dt + "];\n    signal input claimValues["@ + dt + "];\n\n"@ + repeat(
        used_attrs,
        flat_inputs(),
    ) + "\n    signal output ok;\n\n"@;
    let checks = repeat(used_attrs, flat_checks());
    let b = "\n    signal acc["@ + dt + " + 1];\n    acc[0] <== 0;\n    component mix["@ + dt
        + "];\n    for (var i = 0; i < "@ + dt
        + "; i++) {\n        mix[i] = Poseidon(3);\n        mix[i].inputs[0] <== acc[i];\n        mix[i].inputs[1] <== claimNames[i];\n        mix[i].inputs[2] <== claimValues[i];\n        acc[i + 1] <== mix[i].out;\n    }\n\n    flatHash === acc["@
        + dt + "];\n\n    ok <== 1;\n}\n\ncomponent main {public [flatHash"@ + repeat(
        used_attrs,
        reveal_inputs(),
    ) + "]} = CredentialFlatBench();\n"@;
    assert(flat_circuit_spec(total_attrs, used_attrs) =~= a + checks + b);
    lemma_repeat_contains(used_attrs, flat_checks(), i, reveal_name_binding(i));
    lemma_repeat_contains(used_attrs, flat_checks(), i, reveal_value_binding(i));
    lemma_contains_within(a, checks, b, reveal_name_binding(i));
    lemma_contains_within(a, checks, b, reveal_value_binding(i));
}

#[verifier::spinoff_prover]
proof fn lemma_reveals_in_check(i: nat)
    ensures
        contains_text((flat_checks())(i), reveal_name_binding(i)),
        contains_text((flat_checks())(i), reveal_value_binding(i)),
{
    reveal_strlit("    revealName_");
    reveal_strlit("    ");
    reveal_strlit("revealName_");
    reveal_strlit(" === claimNames[");
    reveal_strlit(" === ");
    reveal_strlit("claimNames[");
    reveal_strlit("];\n    revealValue_");
    reveal_strlit("];");
    reveal_strlit("\n    revealValue_");
    reveal_strlit("];\n    ");
    reveal_strlit("revealValue_");
    reveal_strlit(" === claimValues[");
    reveal_strlit("claimValues[");
    reveal_strlit("];\n");
    reveal_strlit("\n");
    assert("    revealName_"@ =~= "    "@ + "revealName_"@);
    assert(" === claimNames["@ =~= " === "@ + "claimNames["@);
    assert("];\n    revealValue_"@ =~= "];"@ + "\n    revealValue_"@);
    assert("];\n    revealValue_"@ =~= "];\n    "@ + "revealValue_"@);
    assert(" === claimValues["@ =~= " === "@ + "claimValues["@);
    assert("];\n"@ =~= "];"@ + "\n"@);
    let di = decimal(i);
    let post_n = "\n    revealValue_"@ + di + " === claimValues["@ + di + "];\n"@;
    assert((flat_checks())(i) =~= "    "@ + reveal_name_binding(i) + post_n);
    lemma_contains_middle("    "@, reveal_name_binding(i), post_n);
    let pre_v = "    revealName_"@ + di + " === claimNames["@ + di + "];\n    "@;
    assert((flat_checks())(i) =~= pre_v + reveal_value_binding(i) + "\n"@);
    lemma_contains_middle(pre_v, reveal_value_binding(i), "\n"@);
}

} // verus!
