//! Poseidon Merkle trees over credential claims: the levels are built once
//! and each inclusion path is read off them.
use vstd::prelude::*;

use crate::zk_friendly::field::{poseidon, poseidon_of, values, Fe};
use crate::zk_friendly::revocation_tree::{
    lemma_log2_ceil_least, lemma_log2_ceil_unique, lemma_pow2_positive, log2_ceil, pow2,
};

verus! {

/// The parent of two nodes.
pub open spec fn hash2(left: nat, right: nat) -> nat {
    poseidon_of(seq![left, right])
}

/// `leaf = poseidon(poseidon(claimName), claimValue)`.
pub open spec fn leaf_spec(claim_name: nat, claim_value: nat) -> nat {
    poseidon_of(seq![poseidon_of(seq![claim_name]), claim_value])
}

pub fn build_leaf(claim_name: Fe, claim_value: Fe) -> (r: Fe)
    ensures
        r@ == leaf_spec(claim_name@, claim_value@),
{
    let a = [claim_name];
    assert(values(a@) =~= seq![claim_name@]);
    let name_hash = poseidon(&a);
    let b = [name_hash, claim_value];
    assert(values(b@) =~= seq![name_hash@, claim_value@]);
    poseidon(&b)
}

/// `n` is a power of two.
pub open spec fn is_pow2(n: nat) -> bool {
    n >= 1 && pow2(log2_ceil(n)) == n
}

/// Each level halves the one below it, and each node is the hash of its two
/// children.
#[verifier::opaque]
pub open spec fn levels_linked(levels: Seq<Seq<nat>>) -> bool {
    &&& forall|l: int|
        0 <= l < levels.len() - 1 ==> #[trigger] levels[l].len() == 2 * levels[l + 1].len()
    &&& forall|l: int, j: int|
        0 <= l < levels.len() - 1 && 0 <= j < levels[l + 1].len() ==> #[trigger] levels[l + 1][j]
            == hash2(levels[l][2 * j], levels[l][2 * j + 1])
}

/// A complete tree: the leaves first, a single root last.
pub open spec fn levels_wf(levels: Seq<Seq<nat>>) -> bool {
    &&& levels.len() >= 1
    &&& levels.last().len() == 1
    &&& levels_linked(levels)
}

/// Why a tree or a path could not be built.
#[derive(Clone, Copy, PartialEq, Eq, Debug, Structural)]
pub enum MerkleError {
    EmptyLeaves,
    NotPowerOfTwo { count: usize },
    IndexOutOfRange { index: usize },
    DepthOutOfRange { depth: usize, max: usize },
}

/// A binary Poseidon Merkle tree over a power-of-two number of leaves.
pub struct MerkleTree {
    /// `levels[0]` are the leaves; the last level is the single root.
    levels: Vec<Vec<Fe>>,
}

pub open spec fn level_values(levels: Seq<Vec<Fe>>) -> Seq<Seq<nat>> {
    levels.map_values(|v: Vec<Fe>| values(v@))
}

impl View for MerkleTree {
    type V = Seq<Seq<nat>>;

    closed spec fn view(&self) -> Seq<Seq<nat>> {
        level_values(self.levels@)
    }
}

impl MerkleTree {
    #[verifier::type_invariant]
    closed spec fn wf(self) -> bool {
        levels_wf(level_values(self.levels@))
    }
}

/// The index of the node above leaf `index` at level `l`.
pub open spec fn node_index(index: nat, l: nat) -> nat
    decreases l,
{
    if l == 0 {
        index
    } else {
        node_index(index, (l - 1) as nat) / 2
    }
}

pub open spec fn sibling(i: nat) -> nat {
    if i % 2 == 1 {
        (i - 1) as nat
    } else {
        i + 1
    }
}

/// The siblings on the way from leaf `index` up `depth` levels.
pub open spec fn path_elements_spec(levels: Seq<Seq<nat>>, index: nat, depth: nat) -> Seq<nat> {
    Seq::new(depth, |l: int| levels[l][sibling(node_index(index, l as nat)) as int])
}

/// The side taken at each of those levels: `1` when the node is a right
/// child.
pub open spec fn path_indices_spec(index: nat, depth: nat) -> Seq<u8> {
    Seq::new(depth, |l: int| (node_index(index, l as nat) % 2) as u8)
}

/// The node reached by hashing `node` with each sibling in turn, on the
/// side the path gives.
pub open spec fn climb(node: nat, elements: Seq<nat>, indices: Seq<u8>) -> nat
    decreases elements.len(),
{
    if elements.len() == 0 {
        node
    } else {
        let next = if indices[0] == 1 {
            hash2(elements[0], node)
        } else {
            hash2(node, elements[0])
        };
        climb(next, elements.drop_first(), indices.drop_first())
    }
}

/// An inclusion path: siblings bottom-up, with the side taken at each level.
pub struct MerkleProof {
    pub path_elements: Vec<Fe>,
    pub path_indices: Vec<u8>,
}

proof fn lemma_level_sizes(levels: Seq<Seq<nat>>, l: int)
    requires
        levels_wf(levels),
        0 <= l < levels.len(),
    ensures
        levels[l].len() == pow2((levels.len() - 1 - l) as nat),
    decreases levels.len() - l,
{
    reveal(levels_linked);
    if l < levels.len() - 1 {
        lemma_level_sizes(levels, l + 1);
        assert(levels[l].len() == 2 * levels[l + 1].len());
    }
}

proof fn lemma_node_index_bound(levels: Seq<Seq<nat>>, index: nat, l: nat)
    requires
        levels_wf(levels),
        index < levels[0].len(),
        l < levels.len(),
    ensures
        node_index(index, l) < levels[l as int].len(),
    decreases l,
{
    reveal(levels_linked);
    if l > 0 {
        lemma_node_index_bound(levels, index, (l - 1) as nat);
        assert(levels[l - 1].len() == 2 * levels[l as int].len());
    }
}

/// From level `l` up, the path of leaf `index` climbs to the root.
proof fn lemma_climb_from(levels: Seq<Seq<nat>>, index: nat, l: nat)
    requires
        levels_wf(levels),
        index < levels[0].len(),
        l < levels.len(),
    ensures
        climb(
            levels[l as int][node_index(index, l) as int],
            path_elements_spec(levels, index, (levels.len() - 1) as nat).skip(l as int),
            path_indices_spec(index, (levels.len() - 1) as nat).skip(l as int),
        ) == levels.last()[0],
    decreases levels.len() - l,
{
    reveal(levels_linked);
    let d = (levels.len() - 1) as nat;
    let es = path_elements_spec(levels, index, d);
    let is = path_indices_spec(index, d);
    lemma_node_index_bound(levels, index, l);
    if l == d {
        assert(es.skip(l as int).len() == 0);
    } else {
        lemma_climb_from(levels, index, l + 1);
        lemma_node_index_bound(levels, index, l + 1);
        let i = node_index(index, l);
        let up = node_index(index, l + 1);
        assert(up == i / 2);
        assert(es.skip(l as int).drop_first() =~= es.skip(l + 1int));
        assert(is.skip(l as int).drop_first() =~= is.skip(l + 1int));
        assert(es.skip(l as int)[0] == levels[l as int][sibling(i) as int]);
        assert(is.skip(l as int)[0] == (i % 2) as u8);
        assert(levels[l + 1int][up as int] == hash2(
            levels[l as int][2 * up as int],
            levels[l as int][2 * up as int + 1],
        ));
        if i % 2 == 1 {
            assert(sibling(i) == 2 * up);
            assert(i == 2 * up + 1);
        } else {
            assert(sibling(i) == 2 * up + 1);
            assert(i == 2 * up);
        }
    }
}

/// Climbing a leaf's full path with the siblings and sides the tree gives
/// reaches the root.
pub proof fn lemma_path_recomputes_root(levels: Seq<Seq<nat>>, index: nat)
    requires
        levels_wf(levels),
        index < levels[0].len(),
    ensures
        climb(
            levels[0][index as int],
            path_elements_spec(levels, index, (levels.len() - 1) as nat),
            path_indices_spec(index, (levels.len() - 1) as nat),
        ) == levels.last()[0],
{
    lemma_climb_from(levels, index, 0);
    let d = (levels.len() - 1) as nat;
    assert(path_elements_spec(levels, index, d).skip(0) == path_elements_spec(levels, index, d));
    assert(path_indices_spec(index, d).skip(0) == path_indices_spec(index, d));
}

/// The level above `cur`: each pair of nodes hashed together.
fn next_level(cur: &Vec<Fe>) -> (next: Vec<Fe>)
    requires
        cur@.len() % 2 == 0,
    ensures
        next@.len() * 2 == cur@.len(),
        forall|k: int|
            0 <= k < next@.len() ==> #[trigger] next@[k]@ == hash2(cur@[2 * k]@, cur@[2 * k + 1]@),
{
    let half = cur.len() / 2;
    let mut next: Vec<Fe> = Vec::new();
    for j in 0..half
        invariant
            half * 2 == cur@.len(),
            cur@.len() <= usize::MAX,
            next@.len() == j,
            forall|k: int|
                0 <= k < j ==> #[trigger] next@[k]@ == hash2(cur@[2 * k]@, cur@[2 * k + 1]@),
    {
        let i0 = j + j;
        let pair = [cur[i0], cur[i0 + 1]];
        assert(values(pair@) =~= seq![cur@[2 * j as int]@, cur@[2 * j + 1]@]);
        let h = poseidon(&pair);
        next.push(h);
    }
    next
}

proof fn lemma_link_level(before: Seq<Seq<nat>>, nv: Seq<nat>)
    requires
        before.len() >= 1,
        levels_linked(before),
        nv.len() * 2 == before.last().len(),
        forall|k: int|
            0 <= k < nv.len() ==> #[trigger] nv[k] == hash2(
                before.last()[2 * k],
                before.last()[2 * k + 1],
            ),
    ensures
        levels_linked(before.push(nv)),
{
    reveal(levels_linked);
    let after = before.push(nv);
    assert forall|l: int| 0 <= l < after.len() - 1 implies #[trigger] after[l].len() == 2 * after[l
        + 1].len() by {
        if l < before.len() - 1 {
            assert(after[l] == before[l] && after[l + 1] == before[l + 1]);
        }
    }
    assert forall|l: int, j: int|
        0 <= l < after.len() - 1 && 0 <= j < after[l + 1].len() implies #[trigger] after[l + 1][j]
        == hash2(after[l][2 * j], after[l][2 * j + 1]) by {
        if l < before.len() - 1 {
            assert(after[l] == before[l] && after[l + 1] == before[l + 1]);
        } else {
            assert(after[l + 1][j] == nv[j]);
        }
    }
}

fn is_power_of_two(n: usize) -> (r: bool)
    ensures
        r == is_pow2(n as nat),
{
    if n == 0 {
        return false;
    }
    let mut p: usize = 1;
    let ghost mut d: nat = 0;
    while p < n
        invariant
            p == pow2(d),
            1 <= n,
            d > 0 ==> pow2((d - 1) as nat) < n,
        decreases n - p,
    {
        if p > n / 2 {
            proof {
                assert(pow2(d + 1) == 2 * pow2(d));
                lemma_log2_ceil_unique(n as nat, d + 1);
            }
            return false;
        }
        proof {
            lemma_pow2_positive(d);
        }
        p = p * 2;
        proof {
            d = d + 1;
        }
    }
    proof {
        lemma_log2_ceil_unique(n as nat, d);
    }
    p == n
}

impl MerkleTree {
    /// Builds every level over `leaves`, whose number must be a power of two.
    pub fn build(leaves: &[Fe]) -> (r: Result<MerkleTree, MerkleError>)
        ensures
            match r {
                Ok(t) => is_pow2(leaves@.len()) && t@[0] == values(leaves@) && levels_wf(t@),
                Err(e) => e == (if leaves@.len() == 0 {
                    MerkleError::EmptyLeaves
                } else {
                    MerkleError::NotPowerOfTwo { count: leaves@.len() as usize }
                }) && !is_pow2(leaves@.len()),
            },
    {
        if leaves.len() == 0 {
            return Err(MerkleError::EmptyLeaves);
        }
        if !is_power_of_two(leaves.len()) {
            return Err(MerkleError::NotPowerOfTwo { count: leaves.len() });
        }
        let ghost e0 = log2_ceil(leaves@.len());
        let mut first: Vec<Fe> = Vec::new();
        for i in 0..leaves.len()
            invariant
                first@ == leaves@.take(i as int),
        {
            first.push(leaves[i]);
            assert(leaves@.take(i + 1) == leaves@.take(i as int).push(leaves@[i as int]));
        }
        assert(leaves@.take(leaves.len() as int) == leaves@);
        let mut levels: Vec<Vec<Fe>> = Vec::new();
        levels.push(first);
        let ghost mut e: nat = e0;
        assert(level_values(levels@) =~= seq![values(leaves@)]);
        assert(levels_linked(level_values(levels@))) by {
            reveal(levels_linked);
        }
        while levels[levels.len() - 1].len() > 1
            invariant
                levels@.len() >= 1,
                level_values(levels@)[0] == values(leaves@),
                levels_linked(level_values(levels@)),
                levels@.last()@.len() == pow2(e),
            decreases e,
        {
            let ghost before = level_values(levels@);
            proof {
                lemma_pow2_positive(e);
                if e == 0 {
                    assert(false);
                }
                assert(pow2(e) == 2 * pow2((e - 1) as nat));
            }
            let next = next_level(&levels[levels.len() - 1]);
            let ghost nv = values(next@);
            levels.push(next);
            proof {
                assert(level_values(levels@) =~= before.push(nv));
                lemma_link_level(before, nv);
                e = (e - 1) as nat;
            }
        }
        proof {
            lemma_pow2_positive(e);
            let lvv = level_values(levels@);
            assert(lvv.last() == values(levels@.last()@));
            assert(lvv.last().len() == 1);
        }
        let t = MerkleTree { levels };
        Ok(t)
    }

    pub fn root(&self) -> (r: Fe)
        ensures
            r@ == self@.last()[0],
    {
        proof {
            use_type_invariant(self);
        }
        let last = &self.levels[self.levels.len() - 1];
        assert(self@.last() == values(last@));
        last[0]
    }

    /// The number of levels above the leaves.
    pub fn depth(&self) -> (r: usize)
        ensures
            r == self@.len() - 1,
    {
        proof {
            use_type_invariant(self);
        }
        self.levels.len() - 1
    }

    /// The sibling path of leaf `index` over the bottom `depth` levels.
    #[verifier::spinoff_prover]
    #[verifier::rlimit(40)]
    pub fn inclusion_proof(&self, index: usize, depth: usize) -> (r: Result<MerkleProof, MerkleError>)
        ensures
            levels_wf(self@),
            match r {
                Ok(p) => index < self@[0].len() && 1 <= depth <= self@.len() - 1 && values(
                    p.path_elements@,
                ) == path_elements_spec(self@, index as nat, depth as nat) && p.path_indices@
                    == path_indices_spec(index as nat, depth as nat),
                Err(e) => if index >= self@[0].len() {
                    e == MerkleError::IndexOutOfRange { index }
                } else {
                    (depth == 0 || depth > self@.len() - 1) && e == MerkleError::DepthOutOfRange {
                        depth,
                        max: (self@.len() - 1) as usize,
                    }
                },
            },
    {
        proof {
            use_type_invariant(self);
        }
        let ghost lv = self@;
        if index >= self.levels[0].len() {
            return Err(MerkleError::IndexOutOfRange { index });
        }
        let max = self.levels.len() - 1;
        if depth == 0 || depth > max {
            return Err(MerkleError::DepthOutOfRange { depth, max });
        }
        let mut idx = index;
        let mut path_elements: Vec<Fe> = Vec::new();
        let mut path_indices: Vec<u8> = Vec::new();
        for l in 0..depth
            invariant
                lv == self@,
                levels_wf(lv),
                index < lv[0].len(),
                depth <= lv.len() - 1,
                lv.len() == self.levels@.len(),
                idx == node_index(index as nat, l as nat),
                values(path_elements@) == path_elements_spec(lv, index as nat, depth as nat).take(
                    l as int,
                ),
                path_indices@ == path_indices_spec(index as nat, depth as nat).take(l as int),
        {
            proof {
                lemma_node_index_bound(lv, index as nat, l as nat);
                if l + 1 < lv.len() {
                    lemma_node_index_bound(lv, index as nat, (l + 1) as nat);
                }
                reveal(levels_linked);
                assert(lv[l as int].len() == 2 * lv[l + 1].len());
            }
            let level = &self.levels[l];
            assert(lv[l as int] == values(level@));
            let is_right = idx % 2 == 1;
            let sib = if is_right {
                idx - 1
            } else {
                idx + 1
            };
            let ghost pe = values(path_elements@);
            path_elements.push(level[sib]);
            path_indices.push(if is_right {
                1u8
            } else {
                0u8
            });
            proof {
                assert(values(path_elements@) =~= pe.push(level@[sib as int]@));
                assert(values(path_elements@) =~= path_elements_spec(
                    lv,
                    index as nat,
                    depth as nat,
                ).take(l + 1));
                assert(path_indices@ =~= path_indices_spec(index as nat, depth as nat).take(
                    l + 1,
                ));
            }
            idx = idx / 2;
        }
        assert(path_elements_spec(lv, index as nat, depth as nat).take(depth as int)
            =~= path_elements_spec(lv, index as nat, depth as nat));
        assert(path_indices_spec(index as nat, depth as nat).take(depth as int)
            =~= path_indices_spec(index as nat, depth as nat));
        Ok(MerkleProof { path_elements, path_indices })
    }
}

} // verus!
