//! Laws that relate several calls of the library.

use crate::attestor::{add_post, attests, finalize_post, Terrapin, BUFFER_CAPACITY};
use crate::digest::{
    blob_id, block_count, flatten_bytes, is_block_split, lemma_block_count_bounds,
    lemma_leaf_append, leaf_digests,
};
use crate::levels::{is_level_stack, level_at};
use crate::range::{passthrough_of, round_up};
use vstd::arithmetic::power::pow;
use vstd::prelude::*;

verus! {

/// Finalizing twice returns the same digest sequence both times.
pub proof fn lemma_finalize_idempotent(
    s0: Terrapin,
    s1: Terrapin,
    s2: Terrapin,
    r1: Seq<u8>,
    r2: Seq<u8>,
)
    requires
        finalize_post(s0, s1, r1),
        finalize_post(s1, s2, r2),
    ensures
        r1 == r2,
        s2.fed() == s0.fed(),
{
}

/// Whatever way a stream is cut into the chunks fed to a fresh attestor
/// (one byte at a time, all at once, or anything between), finalizing gives
/// the leaf digest sequence of the whole stream.
pub proof fn lemma_feeding_invariance(
    parts: Seq<Seq<u8>>,
    states: Seq<Terrapin>,
    done: Terrapin,
    r: Seq<u8>,
)
    requires
        states.len() == parts.len() + 1,
        states[0].fed() == Seq::<u8>::empty(),
        !states[0].is_final(),
        forall|i: int|
            0 <= i < parts.len() ==> add_post(#[trigger] states[i], states[i + 1], parts[i], true),
        finalize_post(states.last(), done, r),
    ensures
        r == leaf_digests(flatten_bytes(parts), BUFFER_CAPACITY as nat),
{
    lemma_fed_is_flatten(parts, states, parts.len() as int);
    assert(parts.take(parts.len() as int) =~= parts);
}

proof fn lemma_flatten_push(parts: Seq<Seq<u8>>, i: int)
    requires
        0 <= i < parts.len(),
    ensures
        flatten_bytes(parts.take(i + 1)) == flatten_bytes(parts.take(i)) + parts[i],
    decreases i,
{
    let t = parts.take(i + 1);
    if i == 0 {
        assert(t.drop_first() =~= Seq::<Seq<u8>>::empty());
        assert(parts.take(0) =~= Seq::<Seq<u8>>::empty());
        assert(t[0] + Seq::<u8>::empty() =~= Seq::<u8>::empty() + parts[0]);
    } else {
        let d = parts.drop_first();
        lemma_flatten_push(d, i - 1);
        assert(t.drop_first() =~= d.take(i));
        assert(parts.take(i).drop_first() =~= d.take(i - 1));
        assert(parts.take(i)[0] == parts[0]);
        assert(parts[0] + (flatten_bytes(d.take(i - 1)) + parts[i]) =~= (parts[0] + flatten_bytes(
            d.take(i - 1),
        )) + parts[i]);
    }
}

proof fn lemma_fed_is_flatten(parts: Seq<Seq<u8>>, states: Seq<Terrapin>, k: int)
    requires
        0 <= k <= parts.len(),
        states.len() == parts.len() + 1,
        states[0].fed() == Seq::<u8>::empty(),
        forall|i: int|
            0 <= i < parts.len() ==> add_post(#[trigger] states[i], states[i + 1], parts[i], true),
    ensures
        states[k].fed() == flatten_bytes(parts.take(k)),
    decreases k,
{
    if k == 0 {
        assert(parts.take(0) =~= Seq::<Seq<u8>>::empty());
    } else {
        lemma_fed_is_flatten(parts, states, k - 1);
        assert(add_post(states[k - 1], states[k], parts[k - 1], true));
        lemma_flatten_push(parts, k - 1);
    }
}

/// Digests of the blocks of a stream, hashed in any order and assembled by
/// block index, are the leaf digest sequence of the stream: the same as the
/// attestor gives for it.
pub proof fn lemma_chunked_generation(blocks: Seq<Seq<u8>>, digests: Seq<Seq<u8>>, b: nat)
    requires
        is_block_split(blocks, b),
        digests.len() == blocks.len(),
        forall|i: int| 0 <= i < blocks.len() ==> #[trigger] digests[i] == blob_id(blocks[i]),
    ensures
        flatten_bytes(digests) == leaf_digests(flatten_bytes(blocks), b),
    decreases blocks.len(),
{
    if blocks.len() > 0 {
        let rest = blocks.drop_first();
        let drest = digests.drop_first();
        assert(is_block_split(rest, b)) by {
            assert forall|i: int| 0 <= i < rest.len() - 1 implies (#[trigger] rest[i]).len() == b by {
                assert(rest[i] == blocks[i + 1]);
            }
        }
        assert forall|i: int| 0 <= i < rest.len() implies #[trigger] drest[i] == blob_id(rest[i]) by {
            assert(drest[i] == digests[i + 1]);
        }
        lemma_chunked_generation(rest, drest, b);
        let first = blocks[0];
        if blocks.len() == 1 {
            assert(rest =~= Seq::<Seq<u8>>::empty());
            assert(drest =~= Seq::<Seq<u8>>::empty());
            assert(first + Seq::<u8>::empty() =~= first);
            assert(digests[0] + Seq::<u8>::empty() =~= digests[0]);
        } else {
            assert(first.len() == b);
            vstd::arithmetic::div_mod::lemma_mod_self_0(b as int);
            lemma_leaf_append(first, flatten_bytes(rest), b);
        }
    }
}

/// The same bytes give the same leaf digest sequence, however often they
/// are attested.
pub proof fn lemma_deterministic(s0: Terrapin, s1: Terrapin, r: Seq<u8>, t0: Terrapin, t1: Terrapin, q: Seq<u8>)
    requires
        finalize_post(s0, s1, r),
        finalize_post(t0, t1, q),
        s0.fed() == t0.fed(),
    ensures
        r == q,
{
}

/// Digests per block at the level above: a block holds this many digests.
pub open spec fn fan_in() -> int {
    (BUFFER_CAPACITY / 32) as int
}

/// A leaf of `n >= 1` blocks has `K` levels above it, with `K` the least
/// number for which `n <= fan_in^K` (the logarithm of `n` to the base
/// `fan_in`, rounded up), and the topmost level is one 32-byte root.
pub proof fn lemma_level_count(leaf: Seq<u8>, levels: Seq<Seq<u8>>, n: nat)
    requires
        is_level_stack(leaf, levels),
        leaf.len() == 32 * n,
        n >= 1,
    ensures
        levels[0].len() == 32,
        n <= pow(fan_in(), (levels.len() - 1) as nat),
        levels.len() == 1 || pow(fan_in(), (levels.len() - 2) as nat) < n,
{
    let top = (levels.len() - 1) as nat;
    lemma_levels_above(leaf, top, 0, n);
    assert(levels[0] == level_at(leaf, top));
}

proof fn lemma_levels_above(leaf: Seq<u8>, top: nat, k: nat, m: nat)
    requires
        k <= top,
        m >= 1,
        level_at(leaf, k).len() == 32 * m,
        forall|j: nat| j < top ==> (#[trigger] level_at(leaf, j)).len() > 32,
        level_at(leaf, top).len() <= 32,
        forall|j: nat| j < top ==> (#[trigger] level_at(leaf, j + 1)).len() == block_count(
            level_at(leaf, j).len(),
            BUFFER_CAPACITY as nat,
        ) * 32,
    ensures
        level_at(leaf, top).len() == 32,
        m <= pow(fan_in(), (top - k) as nat),
        top == k || pow(fan_in(), (top - k - 1) as nat) < m,
    decreases top - k,
{
    reveal(pow);
    let a = fan_in();
    if k == top {
        assert(m == 1) by (nonlinear_arith)
            requires
                32 * m <= 32,
                m >= 1,
        ;
    } else {
        let bsz = BUFFER_CAPACITY as nat;
        let len = level_at(leaf, k).len();
        assert(level_at(leaf, k).len() > 32);
        lemma_block_count_bounds(len, bsz);
        let c = block_count(len, bsz);
        assert(level_at(leaf, k + 1).len() == c * 32);
        assert((c - 1) * a < m <= c * a && c >= 1) by (nonlinear_arith)
            requires
                (c - 1) * bsz < len <= c * bsz,
                len == 32 * m,
                bsz == 32 * a,
                a == 65536,
                m >= 1,
        ;
        lemma_levels_above(leaf, top, k + 1, c);
        let j = (top - k - 1) as nat;
        assert((top - k) as nat == j + 1);
        assert(pow(a, j + 1) == a * pow(a, j));
        let pj = pow(a, j);
        assert(m <= a * pj) by (nonlinear_arith)
            requires
                m <= c * a,
                c <= pj,
                a > 0,
        ;
        if j == 0 {
            assert(pow(a, 0) == 1);
            assert(m > 1) by (nonlinear_arith)
                requires
                    32 * m > 32,
            ;
        } else {
            let pi = pow(a, (j - 1) as nat);
            assert(pj == a * pi);
            assert(pj < m) by (nonlinear_arith)
                requires
                    pi < c,
                    pj == a * pi,
                    (c - 1) * a < m,
                    a > 0,
            ;
        }
    }
}

/// Adding no bytes to an attestor that is not finalized changes nothing.
pub proof fn lemma_add_nothing(pre: Terrapin, post: Terrapin)
    requires
        attests(pre),
        !pre.is_final(),
        add_post(pre, post, Seq::<u8>::empty(), true),
    ensures
        post.fed() == pre.fed(),
        post.digests() == pre.digests(),
        post.pending() == pre.pending(),
        !post.is_final(),
{
    let b = BUFFER_CAPACITY as int;
    let w = (pre.fed().len() - pre.pending_len()) as int;
    assert(pre.fed() + Seq::<u8>::empty() =~= pre.fed());
    vstd::arithmetic::div_mod::lemma_fundamental_div_mod(w, b);
    vstd::arithmetic::div_mod::lemma_mod_multiples_vanish(w / b, pre.pending_len() as int, b);
    vstd::arithmetic::div_mod::lemma_small_mod(pre.pending_len(), b as nat);
    assert(pre.fed().len() == b * (w / b) + pre.pending_len());
}

/// A block that fills is hashed at once: adding one whole block to a fresh
/// attestor leaves its digest and nothing pending.
pub proof fn lemma_full_block_hashed(pre: Terrapin, post: Terrapin, data: Seq<u8>)
    requires
        attests(pre),
        pre.fed() == Seq::<u8>::empty(),
        !pre.is_final(),
        data.len() == BUFFER_CAPACITY,
        add_post(pre, post, data, true),
    ensures
        post.digests() == blob_id(data),
        post.pending_len() == 0,
{
    assert(Seq::<u8>::empty() + data =~= data);
    vstd::arithmetic::div_mod::lemma_mod_self_0(BUFFER_CAPACITY as int);
    assert(data.take(data.len() as int) =~= data);
}

/// Passthrough is exact: for a request `[start, end)` inside the stream the
/// bytes passed through are exactly those of the request, whatever the block
/// size.
pub proof fn lemma_passthrough_exact(data: Seq<u8>, start: u64, end: u64)
    requires
        start <= end <= data.len(),
        data.len() <= u64::MAX,
    ensures
        passthrough_of(data, Some(start), Some(end)) == data.subrange(start as int, end as int),
{
    let b = BUFFER_CAPACITY as int;
    let e = end as int;
    vstd::arithmetic::div_mod::lemma_mod_pos_bound(e, b);
    assert(round_up(e, b) >= e);
    if start == end {
        assert(data.subrange(start as int, end as int) =~= Seq::<u8>::empty());
    }
}

} // verus!
