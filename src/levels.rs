//! Level compression: the leaf digest sequence is re-chunked and re-hashed,
//! level by level, until a level of at most one digest (the root) remains.

use crate::attestor::BUFFER_CAPACITY;
use crate::digest::{block_count, chunk_digests, lemma_block_count_bounds, leaf_digests};
use vstd::prelude::*;

verus! {

/// Level `k` above `leaf`: level 0 is the leaf sequence itself, and each next
/// level is the digest sequence of the one below it.
pub open spec fn level_at(leaf: Seq<u8>, k: nat) -> Seq<u8>
    decreases k,
{
    if k == 0 {
        leaf
    } else {
        leaf_digests(level_at(leaf, (k - 1) as nat), BUFFER_CAPACITY as nat)
    }
}

/// `levels` are the levels of `leaf`, root first: the last entry is the
/// leaf, each entry is the digest sequence of the entry after it, every entry
/// below the root is longer than one digest, and the root is at most one.
pub open spec fn is_level_stack(leaf: Seq<u8>, levels: Seq<Seq<u8>>) -> bool {
    let n = levels.len() - 1;
    &&& levels.len() >= 1
    &&& forall|i: int| 0 <= i < levels.len() ==> #[trigger] levels[i] == level_at(leaf, (n - i) as nat)
    &&& forall|k: nat| k < n ==> (#[trigger] level_at(leaf, k)).len() > 32
    &&& level_at(leaf, n as nat).len() <= 32
    &&& forall|k: nat| k < n ==> (#[trigger] level_at(leaf, k + 1)).len() == block_count(
        level_at(leaf, k).len(),
        BUFFER_CAPACITY as nat,
    ) * 32
}

/// A level longer than one digest has a strictly shorter next level.
proof fn lemma_level_shrinks(len: nat)
    requires
        len > 32,
    ensures
        block_count(len, BUFFER_CAPACITY as nat) * 32 < len,
{
    let b = BUFFER_CAPACITY as nat;
    lemma_block_count_bounds(len, b);
    let c = block_count(len, b);
    assert(c * 32 < len) by (nonlinear_arith)
        requires
            (c - 1) * b < len,
            b == 2097152,
            len > 32,
            c >= 1,
    ;
}

/// All levels of `leaf`, root first, ending with the leaf itself. A leaf of
/// at most one digest is its own root.
pub fn attestation_levels(leaf: Vec<u8>) -> (r: Vec<Vec<u8>>)
    ensures
        is_level_stack(leaf@, r@.map_values(|v: Vec<u8>| v@)),
{
    let ghost l = leaf@;
    let mut below: Vec<Vec<u8>> = Vec::new();
    let mut cur = leaf;
    let ghost mut k: nat = 0;
    while cur.len() > 32
        invariant
            below@.len() == k,
            cur@ == level_at(l, k),
            forall|i: int| 0 <= i < k ==> #[trigger] below@[i]@ == level_at(l, i as nat),
            forall|j: nat| j < k ==> (#[trigger] level_at(l, j)).len() > 32,
            forall|j: nat| j < k ==> (#[trigger] level_at(l, j + 1)).len() == block_count(
                level_at(l, j).len(),
                BUFFER_CAPACITY as nat,
            ) * 32,
        decreases cur@.len(),
    {
        let next = chunk_digests(cur.as_slice(), BUFFER_CAPACITY);
        proof {
            lemma_level_shrinks(cur@.len());
            assert(level_at(l, k + 1) == leaf_digests(level_at(l, k), BUFFER_CAPACITY as nat));
        }
        below.push(cur);
        cur = next;
        proof {
            k = k + 1;
        }
    }
    let mut out: Vec<Vec<u8>> = Vec::new();
    out.push(cur);
    while below.len() > 0
        invariant
            below@.len() + out@.len() == k + 1,
            forall|i: int| 0 <= i < below@.len() ==> #[trigger] below@[i]@ == level_at(l, i as nat),
            forall|i: int| 0 <= i < out@.len() ==> #[trigger] out@[i]@ == level_at(l, (k - i) as nat),
        decreases below@.len(),
    {
        let v = below.pop().unwrap();
        out.push(v);
    }
    proof {
        let m = out@.map_values(|v: Vec<u8>| v@);
        assert forall|i: int| 0 <= i < m.len() implies #[trigger] m[i] == level_at(l, (k - i) as nat) by {}
    }
    out
}

} // verus!
