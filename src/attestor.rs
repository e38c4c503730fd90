//! The incremental attestor: fed a stream chunk by chunk, it emits one digest
//! per full block and a last one for the remainder when finalized.

use crate::digest::{block_count, blob_id, block_digest, lemma_block_count_step, lemma_leaf_append, leaf_digests};
use vstd::prelude::*;

verus! {

/// Block size of the attestor: 2 MiB.
pub const BUFFER_CAPACITY: usize = 2097152;

/// Error reported if the pending buffer ever grew past a block; the copy
/// sizing of `Terrapin::add` rules this out.
#[derive(Debug, Clone, Copy, PartialEq, Eq)]
pub struct BufferOverflowError;

impl BufferOverflowError {
    /// Human-readable description of the error.
    pub fn message(&self) -> (r: String)
        ensures
            r@ == "Buffer size exceeded 2MB unexpectedly"@,
    {
        String::from_str("Buffer size exceeded 2MB unexpectedly")
    }
}

/// Error for data added to an attestor that was already finalized.
#[derive(Debug, Clone, Copy, PartialEq, Eq)]
pub struct FinalizedError {}

impl FinalizedError {
    /// Human-readable description of the error.
    pub fn message(&self) -> (r: String)
        ensures
            r@ == "terrapin attestor already finalized"@,
    {
        String::from_str("terrapin attestor already finalized")
    }
}

/// `w` whole blocks and `p` pending bytes make `w / b` blocks, plus one if
/// anything is pending.
pub proof fn lemma_block_count_whole(w: nat, p: nat, b: nat)
    requires
        b > 0,
        w % b == 0,
        p < b,
    ensures
        block_count(w + p, b) == w / b + (if p > 0 { 1nat } else { 0nat }),
    decreases w,
{
    if w == 0 {
        if p > 0 {
            lemma_block_count_step(p, b);
        }
    } else {
        assert(w >= b) by {
            if w < b {
                vstd::arithmetic::div_mod::lemma_small_mod(w, b);
            }
        }
        vstd::arithmetic::div_mod::lemma_mod_sub_multiples_vanish(w as int, b as int);
        lemma_block_count_whole((w - b) as nat, p, b);
        lemma_block_count_step(w + p, b);
        vstd::arithmetic::div_mod::lemma_div_minus_one(w as int, b as int);
        if w + p <= b {
            assert(w == b);
            vstd::arithmetic::div_mod::lemma_div_by_self(b as int);
        }
    }
}

/// The visible state of an attestor: the pending bytes are the tail of the
/// stream after its whole blocks. Before finalizing, the pending part is
/// shorter than a block and the digests are those of the whole blocks, one
/// 32-byte digest each; once finalized, nothing is pending and the digests
/// are those of the whole stream.
pub open spec fn attests(t: Terrapin) -> bool {
    let b = BUFFER_CAPACITY as nat;
    let w = (t.fed().len() - t.pending_len()) as nat;
    &&& t.pending_len() == t.pending().len()
    &&& t.pending_len() <= t.fed().len()
    &&& t.pending() == t.fed().skip(w as int)
    &&& if t.is_final() {
        &&& t.pending_len() == 0
        &&& t.digests() == leaf_digests(t.fed(), b)
        &&& t.digests().len() == block_count(t.fed().len(), b) * 32
    } else {
        &&& t.pending_len() < b
        &&& w % b == 0
        &&& t.digests() == leaf_digests(t.fed().take(w as int), b)
        &&& t.digests().len() == w / b * 32
    }
}

/// What `add` does: on a finalized attestor it fails and changes nothing;
/// otherwise it succeeds and the stream grows by `data`: every block that
/// fills is hashed at once, and the bytes not yet hashed are those of the
/// last, incomplete block.
pub open spec fn add_post(pre: Terrapin, post: Terrapin, data: Seq<u8>, ok: bool) -> bool {
    &&& post.wf()
    &&& attests(post)
    &&& ok <==> !pre.is_final()
    &&& !ok ==> {
        &&& post.fed() == pre.fed()
        &&& post.digests() == pre.digests()
        &&& post.pending() == pre.pending()
        &&& post.pending_len() == pre.pending_len()
        &&& post.is_final()
    }
    &&& ok ==> post.fed() == pre.fed() + data && !post.is_final()
    &&& ok ==> post.pending_len() == post.fed().len() % (BUFFER_CAPACITY as nat)
    &&& ok ==> post.digests() == leaf_digests(
        post.fed().take(post.fed().len() - post.pending_len()),
        BUFFER_CAPACITY as nat,
    )
    &&& ok ==> post.digests().len() == (post.fed().len() - post.pending_len()) as nat / (
    BUFFER_CAPACITY as nat) * 32
}

/// What `finalize` does: the attestor ends finalized with the same stream
/// and nothing pending, and the result is the leaf digest sequence of the
/// whole stream, one 32-byte digest per block. On the first call that is the
/// digests held before, followed by the digest of the pending bytes if there
/// are any; on an attestor already finalized it is the sequence it held, and
/// the attestor is unchanged.
pub open spec fn finalize_post(pre: Terrapin, post: Terrapin, r: Seq<u8>) -> bool {
    &&& post.wf()
    &&& attests(post)
    &&& post.is_final()
    &&& post.fed() == pre.fed()
    &&& post.pending_len() == 0
    &&& post.pending() == Seq::<u8>::empty()
    &&& post.digests() == r
    &&& r == leaf_digests(pre.fed(), BUFFER_CAPACITY as nat)
    &&& r.len() == block_count(pre.fed().len(), BUFFER_CAPACITY as nat) * 32
    &&& !pre.is_final() ==> r == pre.digests() + (if pre.pending_len() == 0 {
        Seq::<u8>::empty()
    } else {
        blob_id(pre.pending())
    })
    &&& pre.is_final() ==> r == pre.digests()
}

/// Stateful accumulator turning an incrementally fed byte stream into its
/// leaf digest sequence.
pub struct Terrapin {
    attestations: Vec<u8>,
    buffer: Vec<u8>,
    finalized: bool,
    fed: Ghost<Seq<u8>>,
}

impl Terrapin {
    /// All bytes fed so far.
    pub closed spec fn fed(&self) -> Seq<u8> {
        self.fed@
    }

    /// Whether the attestor has been finalized.
    pub closed spec fn is_final(&self) -> bool {
        self.finalized
    }

    /// The digests emitted so far.
    pub closed spec fn digests(&self) -> Seq<u8> {
        self.attestations@
    }

    /// Number of fed bytes not yet hashed.
    pub closed spec fn pending_len(&self) -> nat {
        self.buffer@.len()
    }

    /// The fed bytes not yet hashed.
    pub closed spec fn pending(&self) -> Seq<u8> {
        self.buffer@
    }

    /// Well-formedness: the stream splits into whole blocks, already hashed
    /// into the digests, and a pending buffer shorter than a block; once
    /// finalized, the buffer is empty and the digests cover the whole stream.
    pub closed spec fn wf(&self) -> bool {
        let fed = self.fed@;
        let p = self.buffer@.len();
        let w = (fed.len() - p) as nat;
        &&& p <= fed.len()
        &&& self.buffer@ == fed.skip(w as int)
        &&& if self.finalized {
            &&& p == 0
            &&& self.attestations@ == leaf_digests(fed, BUFFER_CAPACITY as nat)
            &&& self.attestations@.len() == block_count(fed.len(), BUFFER_CAPACITY as nat) * 32
        } else {
            &&& p < BUFFER_CAPACITY
            &&& w % (BUFFER_CAPACITY as nat) == 0
            &&& self.attestations@ == leaf_digests(fed.take(w as int), BUFFER_CAPACITY as nat)
            &&& self.attestations@.len() == w / (BUFFER_CAPACITY as nat) * 32
        }
    }

    /// A well-formed attestor shows its state through `attests`.
    pub proof fn lemma_wf_attests(&self)
        requires
            self.wf(),
        ensures
            attests(*self),
    {
    }

    /// A fresh attestor: nothing fed, nothing emitted, not finalized.
    pub fn new() -> (r: Terrapin)
        ensures
            r.wf(),
            attests(r),
            r.fed() == Seq::<u8>::empty(),
            !r.is_final(),
            r.digests().len() == 0,
            r.pending_len() == 0,
    {
        let r = Terrapin {
            attestations: Vec::new(),
            buffer: Vec::with_capacity(BUFFER_CAPACITY),
            finalized: false,
            fed: Ghost(Seq::empty()),
        };
        proof {
            assert(r.fed@.take(0) =~= Seq::<u8>::empty());
            assert(r.fed@.skip(0) =~= r.buffer@);
            r.lemma_wf_attests();
        }
        r
    }

    /// Hashes the pending buffer, if any, appends its digest and empties it.
    fn update_hash_buffer(&mut self)
        ensures
            final(self).attestations@ == old(self).attestations@ + (if old(self).buffer@.len() == 0 {
                Seq::<u8>::empty()
            } else {
                blob_id(old(self).buffer@)
            }),
            final(self).attestations@.len() == old(self).attestations@.len() + (if old(
                self,
            ).buffer@.len() == 0 {
                0int
            } else {
                32int
            }),
            final(self).buffer@.len() == 0,
            final(self).finalized == old(self).finalized,
            final(self).fed == old(self).fed,
    {
        if self.buffer.len() == 0 {
            assert(self.attestations@ + Seq::<u8>::empty() =~= self.attestations@);
            return ;
        }
        let mut hash = block_digest(self.buffer.as_slice());
        self.attestations.append(&mut hash);
        self.buffer.clear();
    }

    /// Appends `data` to the stream. Each time the pending buffer fills a
    /// whole block it is hashed at once, so it never reaches a block's size.
    /// Fails, changing nothing, once the attestor is finalized.
    pub fn add(&mut self, data: &[u8]) -> (r: Result<(), FinalizedError>)
        requires
            old(self).wf(),
        ensures
            add_post(*old(self), *final(self), data@, r is Ok),
    {
        if self.finalized {
            proof {
                self.lemma_wf_attests();
            }
            return Err(FinalizedError {  });
        }
        let ghost fed0 = self.fed@;
        let mut copied: usize = 0;
        assert(data@.take(0) =~= Seq::<u8>::empty());
        assert(fed0 + data@.take(0) =~= fed0);
        while copied < data.len()
            invariant
                self.wf(),
                !self.finalized,
                copied <= data@.len(),
                self.fed@ == fed0 + data@.take(copied as int),
            decreases data.len() - copied,
        {
            let ghost fed1 = self.fed@;
            let ghost w = (fed1.len() - self.buffer@.len()) as nat;
            let room = BUFFER_CAPACITY - self.buffer.len();
            let to_copy: usize = if data.len() - copied < room { data.len() - copied } else { room };
            let ghost buf0 = self.buffer@;
            let mut j: usize = 0;
            while j < to_copy
                invariant
                    j <= to_copy,
                    copied + to_copy <= data.len(),
                    self.buffer@ == buf0 + data@.subrange(copied as int, copied + j),
                    self.finalized == false,
                    self.fed@ == fed1,
                    self.attestations@ == leaf_digests(fed1.take(w as int), BUFFER_CAPACITY as nat),
                    self.attestations@.len() == w / (BUFFER_CAPACITY as nat) * 32,
                decreases to_copy - j,
            {
                self.buffer.push(data[copied + j]);
                j = j + 1;
                assert(self.buffer@ =~= buf0 + data@.subrange(copied as int, copied + j));
            }
            let ghost new_fed = fed0 + data@.take(copied + to_copy);
            self.fed = Ghost(new_fed);
            proof {
                assert(new_fed =~= fed1 + data@.subrange(copied as int, copied + to_copy));
                assert(new_fed.take(w as int) =~= fed1.take(w as int));
                assert(new_fed.skip(w as int) =~= self.buffer@);
            }
            copied = copied + to_copy;
            if self.buffer.len() >= BUFFER_CAPACITY {
                let ghost whole0 = new_fed.take(w as int);
                let ghost block = self.buffer@;
                self.update_hash_buffer();
                proof {
                    let b = BUFFER_CAPACITY as nat;
                    assert(new_fed.len() == w + b);
                    assert(new_fed.take((w + b) as int) =~= whole0 + block);
                    lemma_leaf_append(whole0, block, b);
                    assert(leaf_digests(block, b) == blob_id(block));
                    vstd::arithmetic::div_mod::lemma_mod_add_multiples_vanish(w as int, b as int);
                    vstd::arithmetic::div_mod::lemma_div_plus_one(w as int, b as int);
                    let q = w / b;
                    assert((q + 1) * 32 == q * 32 + 32) by (nonlinear_arith);
                    assert(new_fed.skip((w + b) as int) =~= self.buffer@);
                }
            }
        }
        assert(data@.take(data@.len() as int) =~= data@);
        proof {
            self.lemma_wf_attests();
            let b = BUFFER_CAPACITY as nat;
            let w = (self.fed@.len() - self.buffer@.len()) as nat;
            vstd::arithmetic::div_mod::lemma_fundamental_div_mod(w as int, b as int);
            vstd::arithmetic::div_mod::lemma_mod_multiples_vanish((w / b) as int, self.buffer@.len() as int, b as int);
            vstd::arithmetic::div_mod::lemma_small_mod(self.buffer@.len(), b);
        }
        Ok(())
    }

    /// On the first call, hashes the pending remainder (a short last block)
    /// and marks the attestor finalized; returns the leaf digest sequence of
    /// everything fed, the same on every call.
    pub fn finalize(&mut self) -> (r: Vec<u8>)
        requires
            old(self).wf(),
        ensures
            finalize_post(*old(self), *final(self), r@),
    {
        if !self.finalized {
            let ghost fed = self.fed@;
            let ghost p = self.buffer@.len();
            let ghost w = (fed.len() - p) as nat;
            let ghost buf = self.buffer@;
            self.update_hash_buffer();
            self.finalized = true;
            proof {
                let b = BUFFER_CAPACITY as nat;
                assert(fed =~= fed.take(w as int) + buf);
                lemma_leaf_append(fed.take(w as int), buf, b);
                if p == 0 {
                    assert(self.attestations@ =~= leaf_digests(fed.take(w as int), b) + leaf_digests(buf, b));
                } else {
                    assert(leaf_digests(buf, b) == blob_id(buf));
                }
                lemma_block_count_whole(w, p, b);
                let q = w / b;
                assert((q + 1) * 32 == q * 32 + 32) by (nonlinear_arith);
                assert(w + p == fed.len());
                if p == 0 {
                    assert(self.attestations@.len() == block_count(fed.len(), b) * 32);
                } else {
                    assert(block_count(fed.len(), b) == q + 1);
                    assert(self.attestations@.len() == q * 32 + 32);
                }
                assert(fed.skip(fed.len() as int) =~= self.buffer@);
            }
        }
        proof {
            self.lemma_wf_attests();
            assert(self.buffer@ =~= Seq::<u8>::empty());
        }
        self.attestations.clone()
    }

    /// Number of digest bytes emitted so far.
    pub fn attestations_len(&self) -> (r: usize)
        ensures
            r == self.digests().len(),
    {
        self.attestations.len()
    }

    /// Number of fed bytes waiting for their block to fill.
    pub fn buffer_len(&self) -> (r: usize)
        ensures
            r == self.pending_len(),
    {
        self.buffer.len()
    }

    /// Whether `finalize` has been called.
    pub fn is_finalized(&self) -> (r: bool)
        ensures
            r == self.is_final(),
    {
        self.finalized
    }
}

} // verus!
