//! The additive checksum that guards pages and log records.
//!
//! The checksum is the sum of all bytes, reduced modulo 2^32. It is cheap
//! enough for the hot path and is guaranteed to notice any change confined
//! to a single byte.

use vstd::prelude::*;

verus! {

/// The sum of all bytes of `s`.
pub open spec fn byte_sum(s: Seq<u8>) -> nat
    decreases s.len(),
{
    if s.len() == 0 {
        0
    } else {
        byte_sum(s.drop_last()) + s.last() as nat
    }
}

/// The checksum of `s`: its byte sum modulo 2^32.
pub open spec fn checksum_of(s: Seq<u8>) -> u32 {
    (byte_sum(s) % 0x1_0000_0000) as u32
}

/// Replacing one byte moves the byte sum by exactly the difference of the
/// old and the new byte.
pub proof fn lemma_byte_sum_update(s: Seq<u8>, i: int, b: u8)
    requires
        0 <= i < s.len(),
    ensures
        byte_sum(s.update(i, b)) + s[i] as nat == byte_sum(s) + b as nat,
    decreases s.len(),
{
    if i == s.len() - 1 {
        assert(s.update(i, b).drop_last() =~= s.drop_last());
    } else {
        assert(s.update(i, b).drop_last() =~= s.drop_last().update(i, b));
        lemma_byte_sum_update(s.drop_last(), i, b);
    }
}

/// Any change confined to one byte changes the checksum.
pub proof fn lemma_checksum_detects_byte_change(s: Seq<u8>, i: int, b: u8)
    requires
        0 <= i < s.len(),
        b != s[i],
    ensures
        checksum_of(s.update(i, b)) != checksum_of(s),
{
    lemma_byte_sum_update(s, i, b);
}

/// Computes the checksum of `data`.
pub fn checksum(data: &[u8]) -> (sum: u32)
    ensures
        sum == checksum_of(data@),
{
    let mut acc: u64 = 0;
    let mut i: usize = 0;
    while i < data.len()
        invariant
            i <= data.len(),
            acc < 0x1_0000_0000,
            acc == byte_sum(data@.subrange(0, i as int)) % 0x1_0000_0000,
        decreases data.len() - i,
    {
        proof {
            assert(data@.subrange(0, i + 1).drop_last() =~= data@.subrange(0, i as int));
        }
        acc = (acc + data[i] as u64) % 0x1_0000_0000;
        i = i + 1;
    }
    assert(data@.subrange(0, i as int) =~= data@);
    acc as u32
}

} // verus!
