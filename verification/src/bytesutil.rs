//! Small verified helpers on byte vectors: zero-filled buffers, copies,
//! concatenation, equality, and big-endian encodings of 64-bit integers.

use vstd::prelude::*;
use vstd::bytes::{spec_u64_to_le_bytes, spec_u64_from_le_bytes, lemma_auto_spec_u64_to_from_le_bytes, u64_to_le_bytes, u64_from_le_bytes};

verus! {

/// A sequence of `n` zero bytes.
pub open spec fn zero_seq(n: nat) -> Seq<u8> {
    Seq::new(n, |i: int| 0u8)
}

/// Big-endian 8-byte encoding of a `u64`: the little-endian bytes reversed.
pub open spec fn spec_u64_to_be_bytes(x: u64) -> Seq<u8> {
    Seq::new(8, |i: int| spec_u64_to_le_bytes(x)[7 - i])
}

/// The `u64` read from 8 big-endian bytes.
pub open spec fn spec_u64_from_be_bytes(s: Seq<u8>) -> u64
    recommends
        s.len() == 8,
{
    spec_u64_from_le_bytes(Seq::new(8, |i: int| s[7 - i]))
}

pub proof fn lemma_u64_be_bytes(x: u64)
    ensures
        spec_u64_to_be_bytes(x).len() == 8,
        spec_u64_from_be_bytes(spec_u64_to_be_bytes(x)) == x,
{
    lemma_auto_spec_u64_to_from_le_bytes();
    assert(Seq::new(8, |i: int| spec_u64_to_be_bytes(x)[7 - i]) =~= spec_u64_to_le_bytes(x));
}

pub proof fn lemma_u64_be_bytes_injective(x: u64, y: u64)
    requires
        spec_u64_to_be_bytes(x) == spec_u64_to_be_bytes(y),
    ensures
        x == y,
{
    lemma_u64_be_bytes(x);
    lemma_u64_be_bytes(y);
}

pub fn zero_bytes(n: usize) -> (r: Vec<u8>)
    ensures
        r@ == zero_seq(n as nat),
{
    let mut v: Vec<u8> = Vec::new();
    let mut i: usize = 0;
    while i < n
        invariant
            i <= n,
            v@ =~= zero_seq(i as nat),
        decreases n - i,
    {
        v.push(0u8);
        i = i + 1;
        proof {
            assert(v@ =~= zero_seq(i as nat));
        }
    }
    proof {
        assert(v@ =~= zero_seq(n as nat));
    }
    v
}

pub fn copy_bytes(v: &[u8]) -> (r: Vec<u8>)
    ensures
        r@ == v@,
{
    let mut out: Vec<u8> = Vec::new();
    let mut i: usize = 0;
    while i < v.len()
        invariant
            i <= v@.len(),
            out@ =~= v@.subrange(0, i as int),
        decreases v@.len() - i,
    {
        out.push(v[i]);
        i = i + 1;
        proof {
            assert(out@ =~= v@.subrange(0, i as int));
        }
    }
    proof {
        assert(out@ =~= v@);
    }
    out
}

/// Copies `v[start..end]` into a fresh vector.
pub fn sub_bytes(v: &Vec<u8>, start: usize, end: usize) -> (r: Vec<u8>)
    requires
        start <= end,
        end <= v@.len(),
    ensures
        r@ == v@.subrange(start as int, end as int),
{
    let mut out: Vec<u8> = Vec::new();
    let mut i: usize = start;
    while i < end
        invariant
            start <= i <= end,
            end <= v@.len(),
            out@ =~= v@.subrange(start as int, i as int),
        decreases end - i,
    {
        out.push(v[i]);
        i = i + 1;
        proof {
            assert(out@ =~= v@.subrange(start as int, i as int));
        }
    }
    out
}

/// Appends all of `src` to `dst`.
pub fn append_bytes(dst: &mut Vec<u8>, src: &[u8])
    ensures
        final(dst)@ == old(dst)@ + src@,
{
    let mut i: usize = 0;
    while i < src.len()
        invariant
            i <= src@.len(),
            dst@ =~= old(dst)@ + src@.subrange(0, i as int),
        decreases src@.len() - i,
    {
        dst.push(src[i]);
        i = i + 1;
        proof {
            assert(dst@ =~= old(dst)@ + src@.subrange(0, i as int));
        }
    }
    proof {
        assert(dst@ =~= old(dst)@ + src@);
    }
}

pub fn bytes_eq(a: &[u8], b: &[u8]) -> (r: bool)
    ensures
        r == (a@ == b@),
{
    if a.len() != b.len() {
        proof {
            assert(a@.len() != b@.len());
        }
        return false;
    }
    let n = a.len();
    let mut i: usize = 0;
    while i < n
        invariant
            i <= n,
            n == a@.len(),
            n == b@.len(),
            forall|j: int| 0 <= j < i ==> a@[j] == b@[j],
        decreases n - i,
    {
        if a[i] != b[i] {
            return false;
        }
        i = i + 1;
    }
    proof {
        assert(a@ =~= b@);
    }
    true
}

pub fn u64_to_be_bytes(x: u64) -> (r: Vec<u8>)
    ensures
        r@ == spec_u64_to_be_bytes(x),
        r@.len() == 8,
{
    proof {
        lemma_auto_spec_u64_to_from_le_bytes();
    }
    let le = u64_to_le_bytes(x);
    let mut out: Vec<u8> = Vec::new();
    let mut i: usize = 0;
    while i < 8
        invariant
            i <= 8,
            le@ == spec_u64_to_le_bytes(x),
            le@.len() == 8,
            out@ =~= spec_u64_to_be_bytes(x).subrange(0, i as int),
        decreases 8 - i,
    {
        out.push(le[7 - i]);
        i = i + 1;
        proof {
            assert(out@ =~= spec_u64_to_be_bytes(x).subrange(0, i as int));
        }
    }
    proof {
        assert(out@ =~= spec_u64_to_be_bytes(x));
    }
    out
}

pub fn u64_from_be_bytes(s: &[u8]) -> (r: u64)
    requires
        s@.len() == 8,
    ensures
        r == spec_u64_from_be_bytes(s@),
{
    let mut rev: Vec<u8> = Vec::new();
    let mut i: usize = 0;
    while i < 8
        invariant
            i <= 8,
            s@.len() == 8,
            rev@ =~= Seq::new(i as nat, |j: int| s@[7 - j]),
        decreases 8 - i,
    {
        rev.push(s[7 - i]);
        i = i + 1;
        proof {
            assert(rev@ =~= Seq::new(i as nat, |j: int| s@[7 - j]));
        }
    }
    proof {
        assert(rev@ =~= Seq::new(8, |j: int| s@[7 - j]));
    }
    u64_from_le_bytes(rev.as_slice())
}

} // verus!
