//! The packed-revocation sweep: which population scale a benchmark row
//! measures, and the depth of its status-list tree.
use vstd::prelude::*;

use crate::sorting::{join_decimals, join_with};
use crate::standard::gbench::{rsplit_once, rsplit_once_chars};
use crate::text::{chars_to_string, decimal, parse_unsigned, parse_unsigned_spec, str_chars};
use crate::zk_friendly::revocation_tree::{ceil_div, packed_depth_spec, packed_merkle_depth as packed_depth, pow2};

verus! {

/// Status-list bits packed into one Merkle leaf.
pub const BITS_PER_LEAF: u32 = 253;

fn pow2_u64(e: u32) -> (r: u64)
    requires
        e < 64,
    ensures
        r == pow2(e as nat),
{
    let mut r: u64 = 1;
    let mut i: u32 = 0;
    proof {
        crate::zk_friendly::revocation_tree::lemma_pow2_63();
    }
    while i < e
        invariant
            i <= e < 64,
            r == pow2(i as nat),
            pow2(63) == 0x8000_0000_0000_0000,
        decreases e - i,
    {
        proof {
            crate::zk_friendly::revocation_tree::lemma_pow2_monotone((i + 1) as nat, 63);
        }
        r = r * 2;
        i = i + 1;
    }
    r
}

/// Packed status-list depth for a population of `2^revoc_log2`.
pub fn packed_merkle_depth(revoc_log2: u32) -> (r: u32)
    requires
        revoc_log2 < 64,
    ensures
        r == packed_depth_spec(pow2(revoc_log2 as nat), BITS_PER_LEAF as nat),
{
    let population = pow2_u64(revoc_log2);
    proof {
        crate::zk_friendly::revocation_tree::lemma_pow2_monotone(revoc_log2 as nat, 63);
        crate::zk_friendly::revocation_tree::lemma_pow2_positive(revoc_log2 as nat);
        crate::zk_friendly::revocation_tree::lemma_pow2_63();
        crate::zk_friendly::revocation_tree::lemma_ceil_div_at_most(population as nat, 253);
    }
    packed_depth(population, BITS_PER_LEAF)
}

/// The scale Google Benchmark appends as the last `/<log2>` of a name.
pub open spec fn scale_spec(name: Seq<char>) -> Option<u32> {
    match rsplit_once(name, "/"@) {
        Some((_, tail)) => match parse_unsigned_spec(tail, u32::MAX as nat) {
            Some(v) => Some(v as u32),
            None => None,
        },
        None => None,
    }
}

pub fn scale_from_bench_name(name: &str) -> (r: Option<u32>)
    ensures
        r == scale_spec(name@),
{
    proof {
        reveal_strlit("/");
    }
    let s = str_chars(name);
    match rsplit_once_chars(s.as_slice(), "/") {
        Some((_, tail)) => match parse_unsigned(tail.as_slice(), u32::MAX as u64) {
            Some(v) => Some(v as u32),
            None => None,
        },
        None => None,
    }
}

/// `BM_ProveVerifyRevocationCombined_Packed_P256/(<scales joined by |>)`.
pub open spec fn revocation_filter_spec(revoc_log2: Seq<u32>) -> Seq<char> {
    "BM_ProveVerifyRevocationCombined_Packed_P256/("@ + join_with(
        revoc_log2.map_values(|v: u32| decimal(v as nat)),
        "|"@,
    ) + ")"@
}

/// The filter selecting the requested scales, in the order given.
pub fn revocation_filter(revoc_log2: &[u32]) -> (r: String)
    ensures
        r@ == revocation_filter_spec(revoc_log2@),
{
    proof {
        reveal_strlit("|");
    }
    let mut wide: Vec<usize> = Vec::new();
    for i in 0..revoc_log2.len()
        invariant
            wide@.len() == i,
            forall|j: int| 0 <= j < i ==> wide@[j] == revoc_log2@[j] as usize,
    {
        wide.push(revoc_log2[i] as usize);
    }
    assert(crate::sorting::decimals(wide@) =~= revoc_log2@.map_values(|v: u32| decimal(v as nat)));
    let sep = str_chars("|");
    let joined = join_decimals(wide.as_slice(), sep.as_slice());
    let mut v = str_chars("BM_ProveVerifyRevocationCombined_Packed_P256/(");
    crate::text::append_chars(&mut v, joined.as_slice());
    crate::text::append_str(&mut v, ")");
    chars_to_string(v.as_slice())
}

} // verus!
