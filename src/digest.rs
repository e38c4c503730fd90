//! Block digests and the leaf digest sequence of a byte stream.

use gitoid::rustcrypto::Sha256;
use gitoid::{Blob, GitOid};
use vstd::arithmetic::div_mod::lemma_div_plus_one;
use vstd::prelude::*;

verus! {

/// Width in bytes of one block digest.
pub const DIGEST_LEN: usize = 32;

/// The SHA-256 git blob identifier of a byte sequence.
pub uninterp spec fn blob_id(data: Seq<u8>) -> Seq<u8>;

/// Relies on gitoid's `GitOid::<Sha256, Blob>::id_bytes` (read through
/// `as_bytes`): SHA-256 over a `blob <len>\0` header and the bytes with their
/// carriage returns dropped. The result depends on the bytes alone, and a
/// SHA-256 output is 32 bytes wide; hashing an in-memory buffer cannot fail.
#[verifier::external_body]
fn gitoid_sha256_blob(data: &[u8]) -> (r: Vec<u8>)
    ensures
        r@ == blob_id(data@),
        r@.len() == 32,
{
    GitOid::<Sha256, Blob>::id_bytes(data).as_bytes().to_vec()
}

/// Number of blocks of size `b` that cover `len` bytes.
pub open spec fn block_count(len: nat, b: nat) -> nat {
    if len == 0 || b == 0 {
        0
    } else {
        ((len - 1) as nat / b + 1) as nat
    }
}

/// The concatenated digests of the blocks of `data` at block size `b`, in
/// stream order; every block is `b` bytes but the last, which is shorter or
/// equal. An empty stream has no blocks.
pub open spec fn leaf_digests(data: Seq<u8>, b: nat) -> Seq<u8>
    decreases data.len(),
{
    if b == 0 || data.len() == 0 {
        Seq::empty()
    } else if data.len() <= b {
        blob_id(data)
    } else {
        blob_id(data.take(b as int)) + leaf_digests(data.skip(b as int), b)
    }
}

/// Concatenation of byte sequences in order.
pub open spec fn flatten_bytes(parts: Seq<Seq<u8>>) -> Seq<u8>
    decreases parts.len(),
{
    if parts.len() == 0 {
        Seq::empty()
    } else {
        parts[0] + flatten_bytes(parts.drop_first())
    }
}

/// `blocks` is the cut of a stream into blocks of size `b`: each is `b` bytes
/// long, but the last, which is non-empty and at most `b` bytes.
pub open spec fn is_block_split(blocks: Seq<Seq<u8>>, b: nat) -> bool {
    &&& b > 0
    &&& forall|i: int| 0 <= i < blocks.len() - 1 ==> (#[trigger] blocks[i]).len() == b
    &&& blocks.len() > 0 ==> 0 < blocks.last().len() <= b
}

/// Cutting one block off the front of a stream leaves one block fewer.
pub proof fn lemma_block_count_step(len: nat, b: nat)
    requires
        b > 0,
        len > 0,
    ensures
        len <= b ==> block_count(len, b) == 1,
        len > b ==> block_count(len, b) == 1 + block_count((len - b) as nat, b),
{
    if len > b {
        lemma_div_plus_one((len - b - 1) as int, b as int);
        assert((b + (len - b - 1)) as int == (len - 1) as int);
    } else {
        vstd::arithmetic::div_mod::lemma_basic_div((len - 1) as int, b as int);
    }
}

/// The block count of `x` bytes is `x / b`, rounded up.
pub proof fn lemma_block_count_div(x: nat, b: nat)
    requires
        b > 0,
    ensures
        block_count(x, b) == if x % b == 0 {
            x / b
        } else {
            x / b + 1
        },
{
    if x == 0 {
        vstd::arithmetic::div_mod::lemma_fundamental_div_mod_converse(0, b as int, 0, 0);
    } else {
        let y = (x - 1) as int;
        let q = y / (b as int);
        let r = y % (b as int);
        vstd::arithmetic::div_mod::lemma_fundamental_div_mod(y, b as int);
        vstd::arithmetic::div_mod::lemma_mod_pos_bound(y, b as int);
        vstd::arithmetic::div_mod::lemma_div_pos_is_pos(y, b as int);
        if r == b - 1 {
            assert(x == (q + 1) * b + 0) by (nonlinear_arith)
                requires
                    y == q * b + r,
                    r == b - 1,
                    y == x - 1,
            ;
            vstd::arithmetic::div_mod::lemma_fundamental_div_mod_converse(x as int, b as int, q + 1, 0);
        } else {
            assert(x == q * b + (r + 1)) by (nonlinear_arith)
                requires
                    y == q * b + r,
                    y == x - 1,
            ;
            vstd::arithmetic::div_mod::lemma_fundamental_div_mod_converse(x as int, b as int, q, r + 1);
        }
    }
}

/// `c` blocks of size `b` cover `x > 0` bytes, and `c - 1` blocks do not.
pub proof fn lemma_block_count_bounds(x: nat, b: nat)
    requires
        b > 0,
        x > 0,
    ensures
        (block_count(x, b) - 1) * b < x <= block_count(x, b) * b,
{
    let y = (x - 1) as int;
    let q = y / (b as int);
    let r = y % (b as int);
    vstd::arithmetic::div_mod::lemma_fundamental_div_mod(y, b as int);
    vstd::arithmetic::div_mod::lemma_mod_pos_bound(y, b as int);
    vstd::arithmetic::div_mod::lemma_div_pos_is_pos(y, b as int);
    assert(block_count(x, b) == q + 1);
    assert(q * b < x <= (q + 1) * b) by (nonlinear_arith)
        requires
            y == b * q + r,
            0 <= r < b,
            y == x - 1,
    ;
}

/// Appending whole blocks: the leaf sequence of `a + c` is that of `a`
/// followed by that of `c`, when `a` is a whole number of blocks.
pub proof fn lemma_leaf_append(a: Seq<u8>, c: Seq<u8>, b: nat)
    requires
        b > 0,
        a.len() % b == 0,
    ensures
        leaf_digests(a + c, b) == leaf_digests(a, b) + leaf_digests(c, b),
    decreases a.len(),
{
    if a.len() == 0 {
        assert(a + c =~= c);
    } else if c.len() == 0 {
        assert(a + c =~= a);
    } else {
        assert(a.len() >= b) by {
            vstd::arithmetic::div_mod::lemma_mod_self_0(b as int);
            if a.len() < b {
                vstd::arithmetic::div_mod::lemma_small_mod(a.len() as nat, b);
            }
        }
        assert((a + c).take(b as int) =~= a.take(b as int));
        assert((a + c).skip(b as int) =~= a.skip(b as int) + c);
        vstd::arithmetic::div_mod::lemma_mod_sub_multiples_vanish(a.len() as int, b as int);
        lemma_leaf_append(a.skip(b as int), c, b);
        if a.len() == b {
            assert(a.take(b as int) =~= a);
            assert(a.skip(b as int) =~= Seq::<u8>::empty());
        }
    }
}

/// Block digest of one block: the content identifier of its bytes.
pub fn block_digest(block: &[u8]) -> (r: Vec<u8>)
    ensures
        r@ == blob_id(block@),
        r@.len() == DIGEST_LEN,
{
    gitoid_sha256_blob(block)
}

/// The digests of `digests`' blocks, concatenated in index order (never in
/// the order in which they were computed).
pub fn assemble_digests(digests: &Vec<Vec<u8>>) -> (r: Vec<u8>)
    ensures
        r@ == flatten_bytes(digests@.map_values(|d: Vec<u8>| d@)),
{
    let ghost parts = digests@.map_values(|d: Vec<u8>| d@);
    let mut out: Vec<u8> = Vec::new();
    let mut i: usize = 0;
    assert(parts.skip(0) =~= parts);
    assert(out@ + flatten_bytes(parts) =~= flatten_bytes(parts));
    while i < digests.len()
        invariant
            i <= digests.len(),
            parts == digests@.map_values(|d: Vec<u8>| d@),
            flatten_bytes(parts) == out@ + flatten_bytes(parts.skip(i as int)),
        decreases digests.len() - i,
    {
        let d = &digests[i];
        let mut j: usize = 0;
        let ghost before = out@;
        while j < d.len()
            invariant
                j <= d.len(),
                out@ == before + d@.take(j as int),
            decreases d.len() - j,
        {
            out.push(d[j]);
            j = j + 1;
            assert(out@ =~= before + d@.take(j as int));
        }
        assert(d@.take(j as int) =~= d@);
        let ghost rest = parts.skip(i as int);
        assert(rest.drop_first() =~= parts.skip(i + 1));
        assert(rest[0] == d@);
        i = i + 1;
        assert(before + d@ + flatten_bytes(parts.skip(i as int)) =~= before + (d@ + flatten_bytes(parts.skip(i as int))));
    }
    assert(parts.skip(i as int) =~= Seq::<Seq<u8>>::empty());
    assert(out@ + Seq::<u8>::empty() =~= out@);
    out
}

/// Error for a chunk size of zero.
#[derive(Debug, Clone, Copy, PartialEq, Eq)]
pub struct InvalidChunkSizeError;

impl InvalidChunkSizeError {
    /// Human-readable description of the error.
    pub fn message(&self) -> (r: String)
        ensures
            r@ == "chunk size cannot be zero"@,
    {
        String::from_str("chunk size cannot be zero")
    }
}

/// Rejects a chunk size of zero.
pub fn check_chunk_size(chunk_size: usize) -> (r: Result<(), InvalidChunkSizeError>)
    ensures
        r is Err <==> chunk_size == 0,
{
    if chunk_size == 0 {
        Err(InvalidChunkSizeError)
    } else {
        Ok(())
    }
}

/// Digests of `data` cut into blocks of `chunk_size` bytes (the last block may
/// be shorter), concatenated in stream order.
pub fn generate_for_bytes(data: &[u8], chunk_size: usize) -> (r: Result<Vec<u8>, InvalidChunkSizeError>)
    ensures
        r is Err <==> chunk_size == 0,
        r matches Ok(v) ==> v@ == leaf_digests(data@, chunk_size as nat) && v@.len()
            == block_count(data@.len(), chunk_size as nat) * 32,
{
    if chunk_size == 0 {
        return Err(InvalidChunkSizeError);
    }
    Ok(chunk_digests(data, chunk_size))
}

/// Digests of `data` cut into blocks of `b` bytes, in stream order.
pub(crate) fn chunk_digests(data: &[u8], b: usize) -> (r: Vec<u8>)
    requires
        b > 0,
    ensures
        r@ == leaf_digests(data@, b as nat),
        r@.len() == block_count(data@.len(), b as nat) * 32,
{
    let mut out: Vec<u8> = Vec::new();
    let mut pos: usize = 0;
    assert(data@.skip(0) =~= data@);
    assert(out@ + leaf_digests(data@, b as nat) =~= leaf_digests(data@, b as nat));
    while pos < data.len()
        invariant
            b > 0,
            pos <= data@.len(),
            leaf_digests(data@, b as nat) == out@ + leaf_digests(data@.skip(pos as int), b as nat),
            out@.len() + block_count((data@.len() - pos) as nat, b as nat) * 32 == block_count(
                data@.len(),
                b as nat,
            ) * 32,
        decreases data.len() - pos,
    {
        proof {
            lemma_block_count_step((data@.len() - pos) as nat, b as nat);
            let k = block_count((data@.len() - pos - b) as nat, b as nat);
            assert((1 + k) * 32 == 32 + k * 32) by (nonlinear_arith);
        }
        let ghost rest = data@.skip(pos as int);
        let end: usize = if data.len() - pos <= b { data.len() } else { pos + b };
        let chunk = vstd::slice::slice_subrange(data, pos, end);
        let mut d = gitoid_sha256_blob(chunk);
        if data.len() - pos <= b {
            assert(chunk@ =~= rest);
            assert(data@.skip(end as int) =~= Seq::<u8>::empty());
        } else {
            assert(chunk@ =~= rest.take(b as int));
            assert(rest.skip(b as int) =~= data@.skip(end as int));
        }
        let ghost prev = out@;
        out.append(&mut d);
        assert(prev + (blob_id(chunk@) + leaf_digests(data@.skip(end as int), b as nat)) =~= out@ + leaf_digests(data@.skip(end as int), b as nat));
        pos = end;
    }
    assert(data@.skip(pos as int) =~= Seq::<u8>::empty());
    assert(out@ + Seq::<u8>::empty() =~= out@);
    out
}

} // verus!
