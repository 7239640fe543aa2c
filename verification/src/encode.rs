//! Canonical byte encoding of the protocol's values. Content identifiers
//! are digests of these encodings, so every encoder is exact: its result is
//! pinned to a spec-level encoding function.

use vstd::prelude::*;

verus! {

/// A 64-bit number encoded as eight little-endian bytes.
#[verifier::opaque]
pub open spec fn enc_u64(x: u64) -> Seq<u8> {
    seq![
        (x % 256) as u8,
        ((x / 0x100) % 256) as u8,
        ((x / 0x10000) % 256) as u8,
        ((x / 0x1000000) % 256) as u8,
        ((x / 0x100000000) % 256) as u8,
        ((x / 0x10000000000) % 256) as u8,
        ((x / 0x1000000000000) % 256) as u8,
        ((x / 0x100000000000000) % 256) as u8,
    ]
}

/// A sequence of 64-bit numbers, each encoded in order.
pub open spec fn enc_u64s(s: Seq<u64>) -> Seq<u8>
    decreases s.len(),
{
    if s.len() == 0 {
        Seq::<u8>::empty()
    } else {
        enc_u64s(s.drop_last()) + enc_u64(s.last())
    }
}

/// A length-prefixed sequence of 64-bit numbers.
pub open spec fn enc_route(s: Seq<u64>) -> Seq<u8> {
    enc_u64(s.len() as u64) + enc_u64s(s)
}

/// A length-prefixed byte string.
pub open spec fn enc_bytes(b: Seq<u8>) -> Seq<u8> {
    enc_u64(b.len() as u64) + b
}

pub fn push_u64(out: &mut Vec<u8>, x: u64)
    ensures
        final(out)@ == old(out)@ + enc_u64(x),
{
    out.push((x % 256) as u8);
    out.push(((x / 0x100) % 256) as u8);
    out.push(((x / 0x10000) % 256) as u8);
    out.push(((x / 0x1000000) % 256) as u8);
    out.push(((x / 0x100000000) % 256) as u8);
    out.push(((x / 0x10000000000) % 256) as u8);
    out.push(((x / 0x1000000000000) % 256) as u8);
    out.push(((x / 0x100000000000000) % 256) as u8);
    proof {
        reveal(enc_u64);
        assert(out@ =~= old(out)@ + enc_u64(x));
    }
}

pub fn push_u64s(out: &mut Vec<u8>, s: &Vec<u64>)
    requires
        s@.len() <= u64::MAX,
    ensures
        final(out)@ == old(out)@ + enc_route(s@),
{
    push_u64(out, s.len() as u64);
    let ghost base = out@;
    let n = s.len();
    let mut i: usize = 0;
    while i < n
        invariant
            n == s@.len(),
            0 <= i <= n,
            out@ == base + enc_u64s(s@.take(i as int)),
        decreases n - i,
    {
        push_u64(out, s[i]);
        proof {
            assert(s@.take(i + 1 as int).drop_last() =~= s@.take(i as int));
            assert(s@.take(i + 1 as int).last() == s@[i as int]);
        }
        i += 1;
    }
    proof {
        assert(s@.take(n as int) =~= s@);
        assert(out@ =~= old(out)@ + enc_route(s@));
    }
}

pub fn push_bytes(out: &mut Vec<u8>, b: &Vec<u8>)
    requires
        b@.len() <= u64::MAX,
    ensures
        final(out)@ == old(out)@ + enc_bytes(b@),
{
    push_u64(out, b.len() as u64);
    let ghost base = out@;
    let n = b.len();
    let mut i: usize = 0;
    while i < n
        invariant
            n == b@.len(),
            0 <= i <= n,
            out@ == base + b@.take(i as int),
        decreases n - i,
    {
        out.push(b[i]);
        proof {
            assert(out@ =~= base + b@.take(i + 1 as int));
        }
        i += 1;
    }
    proof {
        assert(b@.take(n as int) =~= b@);
        assert(out@ =~= old(out)@ + enc_bytes(b@));
    }
}

/// Exact comparison of two byte strings.
pub fn bytes_eq(a: &Vec<u8>, b: &Vec<u8>) -> (r: bool)
    ensures
        r == (a@ == b@),
{
    if a.len() != b.len() {
        return false;
    }
    let n = a.len();
    let mut i: usize = 0;
    while i < n
        invariant
            n == a@.len() == b@.len(),
            0 <= i <= n,
            forall|j: int| 0 <= j < i ==> a@[j] == b@[j],
        decreases n - i,
    {
        if a[i] != b[i] {
            return false;
        }
        i += 1;
    }
    proof {
        assert(a@ =~= b@);
    }
    true
}

/// Exact copy of a byte string.
pub fn bytes_dup(a: &Vec<u8>) -> (r: Vec<u8>)
    ensures
        r@ == a@,
{
    let n = a.len();
    let mut out: Vec<u8> = Vec::new();
    let mut i: usize = 0;
    while i < n
        invariant
            n == a@.len(),
            0 <= i <= n,
            out@ == a@.take(i as int),
        decreases n - i,
    {
        out.push(a[i]);
        proof {
            assert(out@ =~= a@.take(i + 1 as int));
        }
        i += 1;
    }
    proof {
        assert(out@ =~= a@);
    }
    out
}

} // verus!
