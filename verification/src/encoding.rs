//! Fixed-width little-endian integers, the building block of every on-disk
//! layout in this crate.

use vstd::prelude::*;

verus! {

/// The four bytes of `x`, least significant first.
#[verifier::opaque]
pub open spec fn le32(x: u32) -> Seq<u8> {
    seq![
        (x % 256) as u8,
        ((x / 256) % 256) as u8,
        ((x / 256 / 256) % 256) as u8,
        ((x / 256 / 256 / 256) % 256) as u8,
    ]
}

/// The integer whose little-endian bytes are the first four of `s`.
#[verifier::opaque]
pub open spec fn from_le32(s: Seq<u8>) -> u32
    recommends
        s.len() >= 4,
{
    (s[0] as int + 256 * (s[1] as int + 256 * (s[2] as int + 256 * (s[3] as int)))) as u32
}

/// The eight bytes of `x`, least significant first.
pub open spec fn le64(x: u64) -> Seq<u8> {
    le32((x % 0x1_0000_0000) as u32) + le32((x / 0x1_0000_0000) as u32)
}

/// The integer whose little-endian bytes are the first eight of `s`.
pub open spec fn from_le64(s: Seq<u8>) -> u64
    recommends
        s.len() >= 8,
{
    (from_le32(s.subrange(0, 4)) as int + 0x1_0000_0000 * (from_le32(s.subrange(4, 8)) as int)) as u64
}

/// Decoding undoes encoding, and encoding undoes decoding, for 32-bit values.
pub proof fn lemma_le32_inverse(x: u32, s: Seq<u8>)
    ensures
        le32(x).len() == 4,
        from_le32(le32(x)) == x,
        s.len() == 4 ==> le32(from_le32(s)) == s,
{
    reveal(le32);
    reveal(from_le32);
    if s.len() == 4 {
        assert(le32(from_le32(s)) =~= s);
    }
}

/// Changing any one of four bytes changes the integer they encode.
pub proof fn lemma_from_le32_update(s: Seq<u8>, i: int, b: u8)
    requires
        s.len() == 4,
        0 <= i < 4,
        b != s[i],
    ensures
        from_le32(s.update(i, b)) != from_le32(s),
{
    reveal(from_le32);
}

/// Decoding undoes encoding, and encoding undoes decoding, for 64-bit values.
pub proof fn lemma_le64_inverse(x: u64, s: Seq<u8>)
    ensures
        le64(x).len() == 8,
        from_le64(le64(x)) == x,
        s.len() == 8 ==> le64(from_le64(s)) == s,
{
    let lo = (x % 0x1_0000_0000) as u32;
    let hi = (x / 0x1_0000_0000) as u32;
    lemma_le32_inverse(lo, le32(lo));
    lemma_le32_inverse(hi, le32(hi));
    assert(le64(x).subrange(0, 4) =~= le32(lo));
    assert(le64(x).subrange(4, 8) =~= le32(hi));
    if s.len() == 8 {
        let a = s.subrange(0, 4);
        let b = s.subrange(4, 8);
        lemma_le32_inverse(0, a);
        lemma_le32_inverse(0, b);
        assert(le64(from_le64(s)) =~= a + b);
        assert(a + b =~= s);
    }
}

/// Appends the little-endian bytes of `x` to `buf`.
pub fn put_u32(buf: &mut Vec<u8>, x: u32)
    ensures
        final(buf)@ == old(buf)@ + le32(x),
{
    proof {
        reveal(le32);
    }
    buf.push((x % 256) as u8);
    buf.push(((x / 256) % 256) as u8);
    buf.push(((x / 256 / 256) % 256) as u8);
    buf.push(((x / 256 / 256 / 256) % 256) as u8);
    assert(buf@ =~= old(buf)@ + le32(x));
}

/// Appends the little-endian bytes of `x` to `buf`.
pub fn put_u64(buf: &mut Vec<u8>, x: u64)
    ensures
        final(buf)@ == old(buf)@ + le64(x),
{
    put_u32(buf, (x % 0x1_0000_0000) as u32);
    put_u32(buf, (x / 0x1_0000_0000) as u32);
    assert(buf@ =~= old(buf)@ + le64(x));
}

/// Appends every byte of `src` to `buf`.
pub fn put_bytes(buf: &mut Vec<u8>, src: &[u8])
    ensures
        final(buf)@ == old(buf)@ + src@,
{
    let mut i: usize = 0;
    while i < src.len()
        invariant
            i <= src.len(),
            buf@ == old(buf)@ + src@.subrange(0, i as int),
        decreases src.len() - i,
    {
        buf.push(src[i]);
        i = i + 1;
        assert(buf@ =~= old(buf)@ + src@.subrange(0, i as int));
    }
    assert(src@.subrange(0, i as int) =~= src@);
}

/// Reads the 32-bit little-endian integer that starts at `at`.
pub fn get_u32(s: &[u8], at: usize) -> (x: u32)
    requires
        at + 4 <= s@.len(),
    ensures
        x == from_le32(s@.subrange(at as int, at + 4)),
{
    proof {
        reveal(from_le32);
    }
    let size: usize = s.len();
    assert(at + 4 <= size);
    let b0: u32 = s[at] as u32;
    let b1: u32 = s[at + 1] as u32;
    let b2: u32 = s[at + 2] as u32;
    let b3: u32 = s[at + 3] as u32;
    b0 + 256 * (b1 + 256 * (b2 + 256 * b3))
}

/// Reads the 64-bit little-endian integer that starts at `at`.
pub fn get_u64(s: &[u8], at: usize) -> (x: u64)
    requires
        at + 8 <= s@.len(),
    ensures
        x == from_le64(s@.subrange(at as int, at + 8)),
{
    let size: usize = s.len();
    assert(at + 8 <= size);
    let lo: u64 = get_u32(s, at) as u64;
    let hi: u64 = get_u32(s, at + 4) as u64;
    proof {
        let w = s@.subrange(at as int, at + 8);
        assert(w.subrange(0, 4) =~= s@.subrange(at as int, at + 4));
        assert(w.subrange(4, 8) =~= s@.subrange(at + 4, at + 8));
    }
    lo + 0x1_0000_0000 * hi
}

/// Copies `len` bytes of `s`, starting at `at`, into a fresh vector.
pub fn get_bytes(s: &[u8], at: usize, len: usize) -> (out: Vec<u8>)
    requires
        at + len <= s@.len(),
    ensures
        out@ == s@.subrange(at as int, at + len),
{
    let size: usize = s.len();
    assert(at + len <= size);
    let mut out: Vec<u8> = Vec::new();
    let mut i: usize = 0;
    while i < len
        invariant
            i <= len,
            at + len <= s@.len() <= usize::MAX,
            out@ == s@.subrange(at as int, at + i),
        decreases len - i,
    {
        out.push(s[at + i]);
        i = i + 1;
        assert(out@ =~= s@.subrange(at as int, at + i));
    }
    out
}

} // verus!
