//! Packed status-list Merkle trees: every leaf packs `bits_per_leaf`
//! revocation bits, and the leaf count is padded to a power of two.
use vstd::prelude::*;

use crate::text::{decimal, strings_view, u64_to_string};
use crate::zk_friendly::field::{poseidon, values, Fe};
use crate::zk_friendly::poseidon_merkle::{climb, hash2, node_index};

verus! {

pub open spec fn pow2(e: nat) -> nat
    decreases e,
{
    if e == 0 {
        1
    } else {
        2 * pow2((e - 1) as nat)
    }
}

/// `ceil(a / b)`.
pub open spec fn ceil_div(a: nat, b: nat) -> nat
    recommends
        b > 0,
{
    if b == 0 {
        0
    } else {
        ((a + b - 1) / (b as int)) as nat
    }
}

/// The least `e` with `2^e >= x`.
pub open spec fn log2_ceil(x: nat) -> nat
    decreases x,
{
    if x <= 1 {
        0
    } else {
        1 + log2_ceil(((x + 1) / 2) as nat)
    }
}

pub proof fn lemma_pow2_positive(e: nat)
    ensures
        pow2(e) >= 1,
    decreases e,
{
    if e > 0 {
        lemma_pow2_positive((e - 1) as nat);
    }
}

pub proof fn lemma_pow2_monotone(a: nat, b: nat)
    requires
        a <= b,
    ensures
        pow2(a) <= pow2(b),
    decreases b - a,
{
    if a < b {
        lemma_pow2_monotone(a, (b - 1) as nat);
        lemma_pow2_positive((b - 1) as nat);
    }
}

pub proof fn lemma_pow2_63()
    ensures
        pow2(63) == 0x8000_0000_0000_0000,
{
    reveal_with_fuel(pow2, 64);
}

pub proof fn lemma_ceil_div_at_most(a: nat, b: nat)
    requires
        b >= 1,
    ensures
        ceil_div(a, b) <= a,
{
    let q = ((a + b - 1) / (b as int)) as nat;
    assert(q <= a) by (nonlinear_arith)
        requires
            q == (a + b - 1) / (b as int),
            b >= 1,
    {
        assert(q * b <= a + b - 1);
        if q > a {
            assert(q * b >= (a + 1) * b);
        }
    }
}

/// `log2_ceil(x)` is the least exponent whose power of two reaches `x`.
pub proof fn lemma_log2_ceil_least(x: nat)
    ensures
        pow2(log2_ceil(x)) >= x,
        log2_ceil(x) > 0 ==> pow2((log2_ceil(x) - 1) as nat) < x,
    decreases x,
{
    if x > 1 {
        let h = ((x + 1) / 2) as nat;
        lemma_log2_ceil_least(h);
        lemma_pow2_positive(log2_ceil(h));
        if log2_ceil(h) > 0 {
            assert(pow2(log2_ceil(h)) == 2 * pow2((log2_ceil(h) - 1) as nat));
        }
    }
}

/// An exponent meeting both bounds is `log2_ceil(x)`.
pub proof fn lemma_log2_ceil_unique(x: nat, d: nat)
    requires
        pow2(d) >= x,
        d > 0 ==> pow2((d - 1) as nat) < x,
    ensures
        log2_ceil(x) == d,
    decreases d,
{
    if d == 0 {
    } else {
        lemma_pow2_positive((d - 1) as nat);
        let h = ((x + 1) / 2) as nat;
        assert(pow2(d) == 2 * pow2((d - 1) as nat));
        if d > 1 {
            assert(pow2((d - 1) as nat) == 2 * pow2((d - 2) as nat));
        }
        lemma_log2_ceil_unique(h, (d - 1) as nat);
    }
}

/// The padded leaf count: the least power of two holding
/// `ceil(population / bits_per_leaf)` leaves.
pub open spec fn packed_leaf_count_spec(population: nat, bits_per_leaf: nat) -> nat {
    pow2(log2_ceil(ceil_div(population, bits_per_leaf)))
}

pub open spec fn packed_depth_spec(population: nat, bits_per_leaf: nat) -> nat {
    log2_ceil(ceil_div(population, bits_per_leaf))
}

fn padded_exponent(population: u64, bits_per_leaf: u32) -> (r: (u64, u32))
    requires
        bits_per_leaf > 0,
        ceil_div(population as nat, bits_per_leaf as nat) <= 0x8000_0000_0000_0000,
    ensures
        r.0 == pow2(r.1 as nat),
        r.1 == packed_depth_spec(population as nat, bits_per_leaf as nat),
        r.1 <= 63,
{
    let b = bits_per_leaf as u64;
    let q = population / b;
    let rem = population % b;
    assert(rem != 0 ==> q < 0xFFFF_FFFF_FFFF_FFFF) by (nonlinear_arith)
        requires
            q == population / b,
            rem == population % b,
            b > 0,
    {
        if rem != 0 {
            assert(b >= 2);
            assert(q * b <= population);
        }
    }
    let leaves: u64 = q + if rem != 0 { 1 } else { 0 };
    assert(leaves == ceil_div(population as nat, bits_per_leaf as nat)) by (nonlinear_arith)
        requires
            leaves == q + if rem != 0 { 1int } else { 0int },
            q == population / b,
            rem == population % b,
            b == bits_per_leaf,
            b > 0,
    {
    }
    let mut p: u64 = 1;
    let mut d: u32 = 0;
    proof {
        lemma_pow2_63();
    }
    while p < leaves
        invariant
            p == pow2(d as nat),
            d <= 63,
            d > 0 ==> pow2((d - 1) as nat) < leaves,
            leaves <= 0x8000_0000_0000_0000,
            pow2(63) == 0x8000_0000_0000_0000,
        decreases 63 - d,
    {
        proof {
            lemma_pow2_positive(d as nat);
            assert(d < 63);
            lemma_pow2_monotone((d + 1) as nat, 63);
            assert(pow2((d + 1) as nat) == 2 * pow2(d as nat));
        }
        p = p * 2;
        d = d + 1;
    }
    proof {
        lemma_log2_ceil_unique(leaves as nat, d as nat);
    }
    (p, d)
}

/// Number of leaves needed for `population` credentials at `bits_per_leaf`
/// bits per leaf, rounded up to a power of two.
pub fn packed_leaf_count(population: u64, bits_per_leaf: u32) -> (r: u64)
    requires
        bits_per_leaf > 0,
        ceil_div(population as nat, bits_per_leaf as nat) <= 0x8000_0000_0000_0000,
    ensures
        r == packed_leaf_count_spec(population as nat, bits_per_leaf as nat),
{
    padded_exponent(population, bits_per_leaf).0
}

/// Depth of the packed tree for `population` credentials: the least `d`
/// with `2^d` leaves enough for them.
pub fn packed_merkle_depth(population: u64, bits_per_leaf: u32) -> (r: u32)
    requires
        bits_per_leaf > 0,
        ceil_div(population as nat, bits_per_leaf as nat) <= 0x8000_0000_0000_0000,
    ensures
        r == packed_depth_spec(population as nat, bits_per_leaf as nat),
        pow2(r as nat) >= ceil_div(population as nat, bits_per_leaf as nat),
        r > 0 ==> pow2((r - 1) as nat) < ceil_div(population as nat, bits_per_leaf as nat),
{
    proof {
        lemma_log2_ceil_least(ceil_div(population as nat, bits_per_leaf as nat));
    }
    padded_exponent(population, bits_per_leaf).1
}

/// The value of every node at level `i` of a tree whose leaves are all zero.
pub open spec fn zero_level(i: nat) -> nat
    decreases i,
{
    if i == 0 {
        0
    } else {
        hash2(zero_level((i - 1) as nat), zero_level((i - 1) as nat))
    }
}

/// Where credential `index` sits: its leaf, and its bit within the leaf.
pub open spec fn packed_position(index: nat, bits_per_leaf: nat) -> (nat, nat) {
    (index / bits_per_leaf, index % bits_per_leaf)
}

/// The leaf and bit of a credential locate it exactly: the bit is within
/// the leaf, and leaf times width plus bit gives the index back.
pub proof fn lemma_packed_position(index: nat, bits_per_leaf: nat)
    requires
        bits_per_leaf > 0,
    ensures
        packed_position(index, bits_per_leaf).1 < bits_per_leaf,
        packed_position(index, bits_per_leaf).0 * bits_per_leaf + packed_position(
            index,
            bits_per_leaf,
        ).1 == index,
{
    let b = bits_per_leaf as int;
    let i = index as int;
    vstd::arithmetic::div_mod::lemma_fundamental_div_mod(i, b);
    assert(b * (i / b) == (i / b) * b) by (nonlinear_arith);
}

/// In an all-zero tree every sibling equals the node beside it, so any path
/// of the level values climbs from a zero leaf to the root, whichever sides
/// it takes.
pub proof fn lemma_zero_path_climbs(depth: nat, indices: Seq<u8>)
    requires
        indices.len() == depth,
    ensures
        climb(0, Seq::new(depth, |i: int| zero_level(i as nat)), indices) == zero_level(depth),
{
    lemma_zero_path_from(depth, 0, indices);
    assert(indices.skip(0) == indices);
    assert(zero_level(0) == 0);
    assert(Seq::new(depth, |i: int| zero_level(i as nat)).skip(0) == Seq::new(
        depth,
        |i: int| zero_level(i as nat),
    ));
}

proof fn lemma_zero_path_from(depth: nat, l: nat, indices: Seq<u8>)
    requires
        indices.len() == depth,
        l <= depth,
    ensures
        climb(
            zero_level(l),
            Seq::new(depth, |i: int| zero_level(i as nat)).skip(l as int),
            indices.skip(l as int),
        ) == zero_level(depth),
    decreases depth - l,
{
    let es = Seq::new(depth, |i: int| zero_level(i as nat));
    if l < depth {
        lemma_zero_path_from(depth, l + 1, indices);
        assert(es.skip(l as int).drop_first() =~= es.skip(l + 1int));
        assert(indices.skip(l as int).drop_first() =~= indices.skip(l + 1int));
        assert(es.skip(l as int)[0] == zero_level(l));
    } else {
        assert(es.skip(l as int).len() == 0);
    }
}

/// A uniform all-zero tree: `level_hash[i]` is the value of every node at
/// level `i`, and `level_hash[depth]` is the root.
pub struct PackedTree {
    pub level_hash: Vec<Fe>,
    pub depth: u32,
    pub bits_per_leaf: u32,
}

impl PackedTree {
    pub open spec fn wf(&self) -> bool {
        &&& self.bits_per_leaf > 0
        &&& self.level_hash@.len() == self.depth + 1
        &&& forall|i: int|
            0 <= i <= self.depth ==> #[trigger] self.level_hash@[i]@ == zero_level(i as nat)
    }

    /// Builds the levels of the tree for `population` credentials.
    pub fn build(population: u64, bits_per_leaf: u32) -> (t: PackedTree)
        requires
            bits_per_leaf > 0,
            ceil_div(population as nat, bits_per_leaf as nat) <= 0x8000_0000_0000_0000,
        ensures
            t.wf(),
            t.depth == packed_depth_spec(population as nat, bits_per_leaf as nat),
            t.bits_per_leaf == bits_per_leaf,
    {
        let depth = packed_merkle_depth(population, bits_per_leaf);
        let mut level_hash: Vec<Fe> = Vec::new();
        level_hash.push(Fe::from_u64(0));
        let mut i: u32 = 0;
        while i < depth
            invariant
                i <= depth,
                level_hash@.len() == i + 1,
                forall|k: int| 0 <= k <= i ==> #[trigger] level_hash@[k]@ == zero_level(k as nat),
            decreases depth - i,
        {
            let child = level_hash[i as usize];
            let pair = [child, child];
            assert(values(pair@) =~= seq![child@, child@]);
            let h = poseidon(&pair);
            level_hash.push(h);
            assert(level_hash@[i + 1]@ == zero_level((i + 1) as nat));
            i = i + 1;
        }
        PackedTree { level_hash, depth, bits_per_leaf }
    }

    pub fn root(&self) -> (r: Fe)
        requires
            self.wf(),
        ensures
            r@ == zero_level(self.depth as nat),
    {
        self.level_hash[self.depth as usize]
    }

    /// Witness that `credential_index` is not revoked.
    pub fn proof_for(&self, credential_index: u64) -> (p: PackedProof)
        requires
            self.wf(),
        ensures
            p.leaf_index@ == decimal(
                packed_position(credential_index as nat, self.bits_per_leaf as nat).0,
            ),
            p.bit_index@ == decimal(
                packed_position(credential_index as nat, self.bits_per_leaf as nat).1,
            ),
            p.leaf_value@ == decimal(0),
            strings_view(p.path_elements@) == Seq::new(
                self.depth as nat,
                |i: int| decimal(zero_level(i as nat)),
            ),
            strings_view(p.path_indices@) == Seq::new(
                self.depth as nat,
                |i: int|
                    decimal(
                        node_index(
                            packed_position(credential_index as nat, self.bits_per_leaf as nat).0,
                            i as nat,
                        ) % 2,
                    ),
            ),
            p.revocation_root@ == decimal(zero_level(self.depth as nat)),
    {
        let b = self.bits_per_leaf as u64;
        let leaf_index = credential_index / b;
        let bit_index = credential_index % b;
        let mut path_elements: Vec<String> = Vec::new();
        let mut path_indices: Vec<String> = Vec::new();
        let mut li = leaf_index;
        let mut i: u32 = 0;
        while i < self.depth
            invariant
                self.wf(),
                i <= self.depth,
                li == node_index(leaf_index as nat, i as nat),
                strings_view(path_elements@) == Seq::new(
                    i as nat,
                    |k: int| decimal(zero_level(k as nat)),
                ),
                strings_view(path_indices@) == Seq::new(
                    i as nat,
                    |k: int| decimal(node_index(leaf_index as nat, k as nat) % 2),
                ),
            decreases self.depth - i,
        {
            let ghost pe = strings_view(path_elements@);
            let ghost pi = strings_view(path_indices@);
            path_elements.push(self.level_hash[i as usize].to_decimal());
            path_indices.push(u64_to_string(li % 2));
            assert(strings_view(path_elements@) =~= pe.push(decimal(zero_level(i as nat))));
            assert(strings_view(path_elements@) =~= Seq::new(
                (i + 1) as nat,
                |k: int| decimal(zero_level(k as nat)),
            ));
            assert(strings_view(path_indices@) =~= pi.push(
                decimal(node_index(leaf_index as nat, i as nat) % 2),
            ));
            assert(strings_view(path_indices@) =~= Seq::new(
                (i + 1) as nat,
                |k: int| decimal(node_index(leaf_index as nat, k as nat) % 2),
            ));
            li = li / 2;
            i = i + 1;
        }
        PackedProof {
            leaf_index: u64_to_string(leaf_index),
            bit_index: u64_to_string(bit_index),
            leaf_value: u64_to_string(0),
            path_elements,
            path_indices,
            revocation_root: self.root().to_decimal(),
        }
    }
}

/// The revocation half of a witness input, as decimal strings.
pub struct PackedProof {
    pub leaf_index: String,
    pub bit_index: String,
    pub leaf_value: String,
    pub path_elements: Vec<String>,
    pub path_indices: Vec<String>,
    pub revocation_root: String,
}

} // verus!
