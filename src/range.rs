//! Range verification: aligns a requested byte range to whole blocks,
//! re-hashes the covering blocks as they are fed, picks out the requested
//! bytes for passthrough, and compares the fresh digests with the matching
//! slice of a stored leaf attestation.

use crate::attestor::{Terrapin, BUFFER_CAPACITY};
use crate::digest::{block_count, lemma_block_count_div, leaf_digests};
use vstd::prelude::*;

verus! {

/// Why a range could not be checked. A digest mismatch is no error: it is
/// the negative outcome of a check.
#[derive(Debug, Clone, Copy, PartialEq, Eq)]
pub enum VerifyError {
    /// The aligned start of the range lies past its aligned end.
    InvalidRange,
    /// The attestation's length is not a multiple of 32, or it is too short
    /// for the slice that the range needs.
    MalformedAttestation,
}

impl VerifyError {
    /// Human-readable description of the error.
    pub fn message(&self) -> (r: String)
        ensures
            r@ == (match self {
                VerifyError::InvalidRange => "range start lies past its end"@,
                VerifyError::MalformedAttestation => "attestation is malformed or too short for the range"@,
            }),
    {
        match self {
            VerifyError::InvalidRange => String::from_str("range start lies past its end"),
            VerifyError::MalformedAttestation => String::from_str(
                "attestation is malformed or too short for the range",
            ),
        }
    }
}

/// The requested start: 0 when none is given.
pub open spec fn requested_start(start: Option<u64>) -> int {
    match start {
        Some(s) => s as int,
        None => 0,
    }
}

/// The requested end: the stream's length when none is given.
pub open spec fn requested_end(end: Option<u64>, len: u64) -> int {
    match end {
        Some(e) => e as int,
        None => len as int,
    }
}

/// `x` rounded down to a multiple of `b`.
pub open spec fn round_down(x: int, b: int) -> int {
    x - x % b
}

/// `x` rounded up to a multiple of `b`.
pub open spec fn round_up(x: int, b: int) -> int {
    if x % b == 0 {
        x
    } else {
        x - x % b + b
    }
}

/// The lesser of two integers.
pub open spec fn min_int(a: int, b: int) -> int {
    if a <= b {
        a
    } else {
        b
    }
}

/// The greater of two integers.
pub open spec fn max_int(a: int, b: int) -> int {
    if a >= b {
        a
    } else {
        b
    }
}

/// Start of the verified region: the requested start rounded down to a block.
pub open spec fn aligned_start_of(start: Option<u64>) -> int {
    round_down(requested_start(start), BUFFER_CAPACITY as int)
}

/// End of the verified region: the requested end rounded up to a block, but
/// never past the stream's end.
pub open spec fn aligned_end_of(end: Option<u64>, len: u64) -> int {
    min_int(len as int, round_up(requested_end(end, len), BUFFER_CAPACITY as int))
}

/// Byte offset in the leaf attestation of the digest of the block at `pos`.
pub open spec fn digest_offset(pos: int) -> int {
    (block_count(pos as nat, BUFFER_CAPACITY as nat) * 32) as int
}

/// The aligned region `[aligned_start, aligned_end)` of a request on a stream
/// of `len` bytes.
pub fn aligned_range(start: Option<u64>, end: Option<u64>, len: u64) -> (r: (u64, u64))
    ensures
        r.0 == aligned_start_of(start),
        r.1 == aligned_end_of(end, len),
{
    let b = BUFFER_CAPACITY as u64;
    let s: u64 = match start {
        Some(s) => s,
        None => 0,
    };
    let e: u64 = match end {
        Some(e) => e,
        None => len,
    };
    let aligned_start = s - s % b;
    let aligned_end = if e >= len {
        proof {
            if e % b != 0 {
                assert(e - e % b + b >= e);
            }
        }
        len
    } else if e % b == 0 {
        e
    } else {
        let down = e - e % b;
        if len - down <= b {
            len
        } else {
            down + b
        }
    };
    (aligned_start, aligned_end)
}

/// Streaming verifier of one range of a stream against its leaf attestation.
pub struct RangeVerifier {
    start: u64,
    end: u64,
    aligned_start: u64,
    aligned_end: u64,
    pos: u64,
    attestor: Terrapin,
}

impl RangeVerifier {
    /// The requested range, start and end.
    pub closed spec fn requested(&self) -> (int, int) {
        (self.start as int, self.end as int)
    }

    /// The aligned region, start and end.
    pub closed spec fn aligned(&self) -> (int, int) {
        (self.aligned_start as int, self.aligned_end as int)
    }

    /// Offset in the stream of the next byte to feed.
    pub closed spec fn position(&self) -> int {
        self.pos as int
    }

    /// The bytes fed so far, from the aligned start on.
    pub closed spec fn fed(&self) -> Seq<u8> {
        self.attestor.fed()
    }

    /// Well-formedness: the aligned start is on a block boundary, and the
    /// fed bytes run from it to the current position, within the region.
    pub closed spec fn wf(&self) -> bool {
        &&& self.attestor.wf()
        &&& !self.attestor.is_final()
        &&& self.aligned_start <= self.pos <= self.aligned_end
        &&& self.pos == self.aligned_start + self.attestor.fed().len()
        &&& self.aligned_start % (BUFFER_CAPACITY as u64) == 0
    }

    /// Plans the check of `[start, end)` on a stream of `len` bytes; `start`
    /// defaults to 0 and `end` to `len`. Fails when the aligned start lies
    /// past the aligned end.
    pub fn new(start: Option<u64>, end: Option<u64>, len: u64) -> (r: Result<RangeVerifier, VerifyError>)
        ensures
            r is Err <==> aligned_start_of(start) > aligned_end_of(end, len),
            r is Err ==> r == Err::<RangeVerifier, VerifyError>(VerifyError::InvalidRange),
            r matches Ok(v) ==> {
                &&& v.wf()
                &&& v.requested() == (requested_start(start), requested_end(end, len))
                &&& v.aligned() == (aligned_start_of(start), aligned_end_of(end, len))
                &&& v.position() == aligned_start_of(start)
                &&& v.fed() == Seq::<u8>::empty()
            },
    {
        let (aligned_start, aligned_end) = aligned_range(start, end, len);
        if aligned_start > aligned_end {
            return Err(VerifyError::InvalidRange);
        }
        let s: u64 = match start {
            Some(s) => s,
            None => 0,
        };
        let e: u64 = match end {
            Some(e) => e,
            None => len,
        };
        let v = RangeVerifier {
            start: s,
            end: e,
            aligned_start,
            aligned_end,
            pos: aligned_start,
            attestor: Terrapin::new(),
        };
        proof {
            let b = BUFFER_CAPACITY as int;
            vstd::arithmetic::div_mod::lemma_fundamental_div_mod(s as int, b);
            vstd::arithmetic::div_mod::lemma_mod_multiples_vanish((s as int) / b, 0, b);
            vstd::arithmetic::div_mod::lemma_small_mod(0, b as nat);
            assert(aligned_start as int == b * ((s as int) / b) + 0);
        }
        Ok(v)
    }

    /// Offset in the stream of the next byte to feed.
    pub fn next_offset(&self) -> (r: u64)
        ensures
            r == self.position(),
    {
        self.pos
    }

    /// Bytes of the aligned region still to be fed.
    pub fn remaining(&self) -> (r: u64)
        requires
            self.wf(),
        ensures
            r == self.aligned().1 - self.position(),
    {
        self.aligned_end - self.pos
    }

    /// Feeds the next bytes of the aligned region and returns the part of
    /// them, as offsets `[lo, hi)` into `block`, that lies inside the
    /// requested range; `lo == hi` when none does.
    pub fn feed(&mut self, block: &[u8]) -> (r: (usize, usize))
        requires
            old(self).wf(),
            old(self).position() + block@.len() <= old(self).aligned().1,
        ensures
            final(self).wf(),
            final(self).fed() == old(self).fed() + block@,
            final(self).position() == old(self).position() + block@.len(),
            final(self).requested() == old(self).requested(),
            final(self).aligned() == old(self).aligned(),
            ({
                let lo = max_int(old(self).position(), old(self).requested().0);
                let hi = min_int(old(self).position() + block@.len(), old(self).requested().1);
                if lo < hi {
                    r.0 == lo - old(self).position() && r.1 == hi - old(self).position()
                } else {
                    r.0 == 0 && r.1 == 0
                }
            }),
    {
        let n = block.len() as u64;
        let lo: u64 = if self.pos >= self.start { self.pos } else { self.start };
        let hi: u64 = if self.pos + n <= self.end { self.pos + n } else { self.end };
        let r: (usize, usize) = if lo < hi {
            ((lo - self.pos) as usize, (hi - self.pos) as usize)
        } else {
            (0, 0)
        };
        let added = self.attestor.add(block);
        assert(added is Ok);
        self.pos = self.pos + n;
        r
    }

    /// Finalizes the fresh digests of the fed region and compares them with
    /// the slice of `attestation` that covers the aligned region. Fails when
    /// the attestation's length is not a multiple of 32 or it is too short
    /// for that slice.
    pub fn finish(self, attestation: &[u8]) -> (r: Result<bool, VerifyError>)
        requires
            self.wf(),
        ensures
            r is Err <==> (attestation@.len() % 32 != 0 || digest_offset(self.aligned().1)
                > attestation@.len()),
            r is Err ==> r == Err::<bool, VerifyError>(VerifyError::MalformedAttestation),
            r matches Ok(ok) ==> ok == (leaf_digests(self.fed(), BUFFER_CAPACITY as nat)
                == attestation@.subrange(
                digest_offset(self.aligned().0),
                digest_offset(self.aligned().1),
            )),
    {
        let b = BUFFER_CAPACITY as u64;
        let first_blocks = self.aligned_start / b;
        let last_blocks = if self.aligned_end % b == 0 {
            self.aligned_end / b
        } else {
            self.aligned_end / b + 1
        };
        proof {
            let bi = BUFFER_CAPACITY as int;
            lemma_block_count_div(self.aligned_end as nat, bi as nat);
            lemma_block_count_div(self.aligned_start as nat, bi as nat);
        }
        if attestation.len() % 32 != 0 || last_blocks > (attestation.len() / 32) as u64 {
            return Err(VerifyError::MalformedAttestation);
        }
        let first = (first_blocks * 32) as usize;
        let last = (last_blocks * 32) as usize;
        let mut attestor = self.attestor;
        let computed = attestor.finalize();
        if computed.len() != last - first {
            return Ok(false);
        }
        let mut i: usize = 0;
        while i < computed.len()
            invariant
                i <= computed@.len(),
                computed@.len() == last - first,
                first <= last <= attestation@.len(),
                first == digest_offset(self.aligned_start as int),
                last == digest_offset(self.aligned_end as int),
                attestation@.len() % 32 == 0,
                computed@ == leaf_digests(self.fed(), BUFFER_CAPACITY as nat),
                forall|k: int| 0 <= k < i ==> computed@[k] == attestation@[first + k],
            decreases computed.len() - i,
        {
            if computed[i] != attestation[first + i] {
                assert(computed@[i as int] != attestation@.subrange(first as int, last as int)[i as int]);
                return Ok(false);
            }
            i = i + 1;
        }
        assert(computed@ =~= attestation@.subrange(first as int, last as int));
        Ok(true)
    }
}

/// The requested bytes that a check of `[start, end)` on `data` passes
/// through: those of the requested range that lie inside the aligned region.
pub open spec fn passthrough_of(data: Seq<u8>, start: Option<u64>, end: Option<u64>) -> Seq<u8> {
    let lo = requested_start(start);
    let hi = min_int(requested_end(end, data.len() as u64), aligned_end_of(end, data.len() as u64));
    if lo < hi {
        data.subrange(lo, hi)
    } else {
        Seq::empty()
    }
}

/// Checks `[start, end)` of the in-memory stream `data` against its leaf
/// `attestation`: the verdict, and the requested bytes passed through.
pub fn verify_bytes(data: &[u8], attestation: &[u8], start: Option<u64>, end: Option<u64>) -> (r:
    Result<(bool, Vec<u8>), VerifyError>)
    requires
        data@.len() <= u64::MAX,
    ensures
        ({
            let len = data@.len() as u64;
            let a = aligned_start_of(start);
            let e = aligned_end_of(end, len);
            &&& r is Err <==> (a > e || attestation@.len() % 32 != 0 || digest_offset(e)
                > attestation@.len())
            &&& a > e ==> r == Err::<(bool, Vec<u8>), VerifyError>(VerifyError::InvalidRange)
            &&& r is Err && a <= e ==> r == Err::<(bool, Vec<u8>), VerifyError>(
                VerifyError::MalformedAttestation,
            )
            &&& r matches Ok(v) ==> {
                &&& v.0 == (leaf_digests(data@.subrange(a, e), BUFFER_CAPACITY as nat)
                    == attestation@.subrange(digest_offset(a), digest_offset(e)))
                &&& v.1@ == passthrough_of(data@, start, end)
            }
        }),
{
    let dl: usize = data.len();
    let len = dl as u64;
    let mut v = match RangeVerifier::new(start, end, len) {
        Ok(v) => v,
        Err(e) => {
            return Err(e);
        },
    };
    let ghost a = v.aligned().0;
    let ghost e = v.aligned().1;
    let ghost lo = v.requested().0;
    let ghost hi = min_int(v.requested().1, e);
    let mut out: Vec<u8> = Vec::new();
    assert(data@.subrange(a, a) =~= Seq::<u8>::empty());
    while v.remaining() > 0
        invariant
            v.wf(),
            v.aligned() == (a, e),
            v.requested().0 == lo,
            min_int(v.requested().1, e) == hi,
            data@.len() == len,
            dl == data@.len(),
            e <= len,
            a <= v.position() <= e,
            v.fed() == data@.subrange(a, v.position()),
            lo >= a,
            out@ == (if lo < min_int(hi, v.position()) {
                data@.subrange(lo, min_int(hi, v.position()))
            } else {
                Seq::empty()
            }),
        decreases e - v.position(),
    {
        let p0 = v.next_offset();
        let rem = v.remaining();
        assert(p0 + rem == e);
        assert(e <= data@.len());
        assert(data@.len() == dl);
        let pos = p0 as usize;
        let n: usize = if rem < BUFFER_CAPACITY as u64 {
            rem as usize
        } else {
            BUFFER_CAPACITY
        };
        let block = vstd::slice::slice_subrange(data, pos, pos + n);
        let ghost fed0 = v.fed();
        let ghost out0 = out@;
        let (l, h) = v.feed(block);
        proof {
            assert(v.fed() =~= data@.subrange(a, pos + n));
        }
        let mut i: usize = l;
        while i < h
            invariant
                l <= i <= h <= block@.len(),
                out@ == out0 + block@.subrange(l as int, i as int),
            decreases h - i,
        {
            out.push(block[i]);
            i = i + 1;
            assert(out@ =~= out0 + block@.subrange(l as int, i as int));
        }
        proof {
            let p1 = pos + n;
            if l < h {
                assert(block@.subrange(l as int, h as int) =~= data@.subrange(pos + l, pos + h));
                if lo < min_int(hi, pos as int) {
                    assert(out@ =~= data@.subrange(lo, min_int(hi, p1)));
                } else {
                    assert(out@ =~= data@.subrange(lo, min_int(hi, p1)));
                }
            } else {
                assert(block@.subrange(l as int, h as int) =~= Seq::<u8>::empty());
                assert(out@ =~= out0);
            }
        }
    }
    let ghost data_region = v.fed();
    match v.finish(attestation) {
        Ok(ok) => {
            proof {
                assert(data_region == data@.subrange(a, e));
            }
            Ok((ok, out))
        },
        Err(err) => Err(err),
    }
}

} // verus!
