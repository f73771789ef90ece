//! Big-endian integers and byte strings as they appear on the wire.

use vstd::prelude::*;

verus! {

/// The two bytes of `v`, most significant first.
#[verifier::opaque]
pub open spec fn u16_bytes(v: u16) -> Seq<u8> {
    seq![(v / 256) as u8, (v % 256) as u8]
}

/// The 16-bit big-endian integer stored at `s[i..i + 2]`.
pub open spec fn u16_at(s: Seq<u8>, i: int) -> u16
    recommends
        0 <= i,
        i + 2 <= s.len(),
{
    (s[i] as int * 256 + s[i + 1] as int) as u16
}

/// The four bytes of `v`, most significant first.
#[verifier::opaque]
pub open spec fn u32_bytes(v: u32) -> Seq<u8> {
    seq![
        (v / 0x100_0000) as u8,
        (v / 0x1_0000 % 256) as u8,
        (v / 0x100 % 256) as u8,
        (v % 256) as u8,
    ]
}

/// The 32-bit big-endian integer stored at `s[i..i + 4]`.
pub open spec fn u32_at(s: Seq<u8>, i: int) -> u32
    recommends
        0 <= i,
        i + 4 <= s.len(),
{
    (s[i] as int * 0x100_0000 + s[i + 1] as int * 0x1_0000 + s[i + 2] as int * 0x100 + s[i
        + 3] as int) as u32
}

/// Number of bytes that bring a value of `n` bytes to a 32-bit boundary.
pub open spec fn padding(n: int) -> int {
    (4 - n % 4) % 4
}

/// Length of a value of `n` bytes together with its padding.
pub open spec fn padded(n: int) -> int {
    n + padding(n)
}

/// `n` zero bytes.
pub open spec fn zeros(n: int) -> Seq<u8> {
    Seq::new(n as nat, |i: int| 0u8)
}

/// The two bytes of a 16-bit integer are read back as that integer.
pub proof fn lemma_u16_at_bytes(v: u16)
    ensures
        u16_bytes(v).len() == 2,
        u16_at(u16_bytes(v), 0) == v,
{
    reveal(u16_bytes);
}

/// The four bytes of a 32-bit integer are read back as that integer.
pub proof fn lemma_u32_at_bytes(v: u32)
    ensures
        u32_bytes(v).len() == 4,
        u32_at(u32_bytes(v), 0) == v,
{
    reveal(u32_bytes);
}

/// A 16-bit integer written between two byte strings is read back where it
/// was written.
pub proof fn lemma_u16_at_concat(a: Seq<u8>, x: u16, b: Seq<u8>)
    ensures
        u16_at(a + u16_bytes(x) + b, a.len() as int) == x,
{
    lemma_u16_at_bytes(x);
    let s = a + u16_bytes(x) + b;
    let n = a.len() as int;
    assert(s[n] == u16_bytes(x)[0]);
    assert(s[n + 1] == u16_bytes(x)[1]);
}

/// A 32-bit integer written between two byte strings is read back where it
/// was written.
pub proof fn lemma_u32_at_concat(a: Seq<u8>, x: u32, b: Seq<u8>)
    ensures
        u32_at(a + u32_bytes(x) + b, a.len() as int) == x,
{
    lemma_u32_at_bytes(x);
    let s = a + u32_bytes(x) + b;
    let n = a.len() as int;
    assert(s[n] == u32_bytes(x)[0]);
    assert(s[n + 1] == u32_bytes(x)[1]);
    assert(s[n + 2] == u32_bytes(x)[2]);
    assert(s[n + 3] == u32_bytes(x)[3]);
}

/// Reading inside the first part of a concatenation ignores the second part.
pub proof fn lemma_u16_at_prefix(a: Seq<u8>, b: Seq<u8>, i: int)
    requires
        0 <= i,
        i + 2 <= a.len(),
    ensures
        u16_at(a + b, i) == u16_at(a, i),
{
}

/// Reading past the first part of a concatenation reads the second part.
pub proof fn lemma_u16_at_suffix(a: Seq<u8>, b: Seq<u8>, i: int)
    requires
        0 <= i,
        i + 2 <= b.len(),
    ensures
        u16_at(a + b, a.len() + i) == u16_at(b, i),
{
}

/// Reads the 16-bit big-endian integer at `b[at..at + 2]`.
pub fn read_u16(b: &[u8], at: usize) -> (v: u16)
    requires
        at + 2 <= b@.len(),
    ensures
        v == u16_at(b@, at as int),
{
    let hi: u16 = b[at] as u16;
    let lo: u16 = b[at + 1] as u16;
    hi * 256 + lo
}

/// Reads the 32-bit big-endian integer at `b[at..at + 4]`.
pub fn read_u32(b: &[u8], at: usize) -> (v: u32)
    requires
        at + 4 <= b@.len(),
    ensures
        v == u32_at(b@, at as int),
{
    let b0: u32 = b[at] as u32;
    let b1: u32 = b[at + 1] as u32;
    let b2: u32 = b[at + 2] as u32;
    let b3: u32 = b[at + 3] as u32;
    b0 * 0x100_0000 + b1 * 0x1_0000 + b2 * 0x100 + b3
}

/// Appends the two bytes of `v`, most significant first.
pub fn push_u16(out: &mut Vec<u8>, v: u16)
    ensures
        final(out)@ == old(out)@ + u16_bytes(v),
{
    out.push((v / 256) as u8);
    out.push((v % 256) as u8);
    proof {
        reveal(u16_bytes);
    }
    assert(out@ =~= old(out)@ + u16_bytes(v));
}

/// Appends the four bytes of `v`, most significant first.
pub fn push_u32(out: &mut Vec<u8>, v: u32)
    ensures
        final(out)@ == old(out)@ + u32_bytes(v),
{
    out.push((v / 0x100_0000) as u8);
    out.push((v / 0x1_0000 % 256) as u8);
    out.push((v / 0x100 % 256) as u8);
    out.push((v % 256) as u8);
    proof {
        reveal(u32_bytes);
    }
    assert(out@ =~= old(out)@ + u32_bytes(v));
}

/// Appends the bytes of `b`.
pub fn push_bytes(out: &mut Vec<u8>, b: &[u8])
    ensures
        final(out)@ == old(out)@ + b@,
{
    let mut i: usize = 0;
    while i < b.len()
        invariant
            i <= b@.len(),
            out@ == old(out)@ + b@.take(i as int),
        decreases b@.len() - i,
    {
        out.push(b[i]);
        i += 1;
        assert(out@ =~= old(out)@ + b@.take(i as int));
    }
    assert(b@.take(i as int) =~= b@);
}

/// Appends `n` zero bytes.
pub fn push_zeros(out: &mut Vec<u8>, n: usize)
    ensures
        final(out)@ == old(out)@ + zeros(n as int),
{
    let mut i: usize = 0;
    while i < n
        invariant
            i <= n,
            out@ == old(out)@ + zeros(i as int),
        decreases n - i,
    {
        out.push(0u8);
        i += 1;
        assert(out@ =~= old(out)@ + zeros(i as int));
    }
}

/// A fresh vector holding `b[from..to]`.
pub fn copy_range(b: &[u8], from: usize, to: usize) -> (out: Vec<u8>)
    requires
        from <= to <= b@.len(),
    ensures
        out@ == b@.subrange(from as int, to as int),
{
    let mut out: Vec<u8> = Vec::new();
    let mut i: usize = from;
    while i < to
        invariant
            from <= i <= to <= b@.len(),
            out@ == b@.subrange(from as int, i as int),
        decreases to - i,
    {
        out.push(b[i]);
        i += 1;
        assert(out@ =~= b@.subrange(from as int, i as int));
    }
    out
}

/// Whether two byte strings hold the same bytes.
pub fn bytes_eq(a: &[u8], b: &[u8]) -> (same: bool)
    ensures
        same == (a@ == b@),
{
    if a.len() != b.len() {
        return false;
    }
    let mut i: usize = 0;
    while i < a.len()
        invariant
            i <= a@.len(),
            a@.len() == b@.len(),
            a@.take(i as int) == b@.take(i as int),
        decreases a@.len() - i,
    {
        if a[i] != b[i] {
            assert(a@[i as int] != b@[i as int]);
            return false;
        }
        i += 1;
        assert(a@.take(i as int) =~= a@.take(i - 1).push(a@[i - 1]));
        assert(b@.take(i as int) =~= b@.take(i - 1).push(b@[i - 1]));
    }
    assert(a@.take(i as int) =~= a@);
    assert(b@.take(i as int) =~= b@);
    true
}

} // verus!
