//! Checksum engine: CRC-16 for individual atom records and CRC-32 for the
//! whole image.  Both are bit-serial, least-significant-bit-first definitions
//! with the usual reflected polynomials.

use vstd::prelude::*;

verus! {

/// One shift step of the CRC-16 register with reflected polynomial 0xA001.
pub open spec fn crc16_shift(c: u16) -> u16 {
    if c & 1 == 1 {
        (c >> 1) ^ 0xA001
    } else {
        c >> 1
    }
}

/// Folding one message byte into the CRC-16 register: the byte is xor-ed
/// into the low bits and eight shift steps are run.
pub open spec fn crc16_feed(c: u16, b: u8) -> u16 {
    crc16_shift(
        crc16_shift(
            crc16_shift(
                crc16_shift(crc16_shift(crc16_shift(crc16_shift(crc16_shift(c ^ (b as u16)))))),
            ),
        ),
    )
}

/// CRC-16 of a byte sequence, initial register 0.
pub open spec fn crc16_spec(s: Seq<u8>) -> u16
    decreases s.len(),
{
    if s.len() == 0 {
        0
    } else {
        crc16_feed(crc16_spec(s.drop_last()), s.last())
    }
}

/// One shift step of the CRC-32 register with reflected polynomial 0xEDB88320.
pub open spec fn crc32_shift(c: u32) -> u32 {
    if c & 1 == 1 {
        (c >> 1) ^ 0xEDB88320
    } else {
        c >> 1
    }
}

/// Folding one message byte into the CRC-32 register.
pub open spec fn crc32_feed(c: u32, b: u8) -> u32 {
    crc32_shift(
        crc32_shift(
            crc32_shift(
                crc32_shift(crc32_shift(crc32_shift(crc32_shift(crc32_shift(c ^ (b as u32)))))),
            ),
        ),
    )
}

/// The CRC-32 register after a byte sequence, initial register all ones.
pub open spec fn crc32_accum(s: Seq<u8>) -> u32
    decreases s.len(),
{
    if s.len() == 0 {
        0xFFFFFFFF
    } else {
        crc32_feed(crc32_accum(s.drop_last()), s.last())
    }
}

/// CRC-32 of a byte sequence: the final register, complemented.
pub open spec fn crc32_spec(s: Seq<u8>) -> u32 {
    crc32_accum(s) ^ 0xFFFFFFFF
}

fn crc16_shift_exec(c: u16) -> (r: u16)
    ensures
        r == crc16_shift(c),
{
    if c & 1 == 1 {
        (c >> 1) ^ 0xA001
    } else {
        c >> 1
    }
}

fn crc16_feed_exec(c: u16, b: u8) -> (r: u16)
    ensures
        r == crc16_feed(c, b),
{
    let mut x = c ^ (b as u16);
    x = crc16_shift_exec(x);
    x = crc16_shift_exec(x);
    x = crc16_shift_exec(x);
    x = crc16_shift_exec(x);
    x = crc16_shift_exec(x);
    x = crc16_shift_exec(x);
    x = crc16_shift_exec(x);
    x = crc16_shift_exec(x);
    x
}

fn crc32_shift_exec(c: u32) -> (r: u32)
    ensures
        r == crc32_shift(c),
{
    if c & 1 == 1 {
        (c >> 1) ^ 0xEDB88320
    } else {
        c >> 1
    }
}

fn crc32_feed_exec(c: u32, b: u8) -> (r: u32)
    ensures
        r == crc32_feed(c, b),
{
    let mut x = c ^ (b as u32);
    x = crc32_shift_exec(x);
    x = crc32_shift_exec(x);
    x = crc32_shift_exec(x);
    x = crc32_shift_exec(x);
    x = crc32_shift_exec(x);
    x = crc32_shift_exec(x);
    x = crc32_shift_exec(x);
    x = crc32_shift_exec(x);
    x
}

/// CRC-16 over `data[start..end]`.
pub fn crc16_range(data: &[u8], start: usize, end: usize) -> (r: u16)
    requires
        start <= end <= data@.len(),
    ensures
        r == crc16_spec(data@.subrange(start as int, end as int)),
{
    let mut crc: u16 = 0;
    let mut i: usize = start;
    proof {
        assert(data@.subrange(start as int, start as int) =~= Seq::<u8>::empty());
    }
    while i < end
        invariant
            start <= i <= end <= data@.len(),
            crc == crc16_spec(data@.subrange(start as int, i as int)),
        decreases end - i,
    {
        proof {
            let pre = data@.subrange(start as int, i as int);
            let post = data@.subrange(start as int, i + 1);
            assert(post.drop_last() =~= pre);
            assert(post.last() == data@[i as int]);
        }
        crc = crc16_feed_exec(crc, data[i]);
        i = i + 1;
    }
    crc
}

/// CRC-16 over a whole byte slice.
pub fn crc16(data: &[u8]) -> (r: u16)
    ensures
        r == crc16_spec(data@),
{
    let r = crc16_range(data, 0, data.len());
    proof {
        assert(data@.subrange(0, data@.len() as int) =~= data@);
    }
    r
}

/// CRC-32 over `data[start..end]`.
pub fn crc32_range(data: &[u8], start: usize, end: usize) -> (r: u32)
    requires
        start <= end <= data@.len(),
    ensures
        r == crc32_spec(data@.subrange(start as int, end as int)),
{
    let mut crc: u32 = 0xFFFFFFFF;
    let mut i: usize = start;
    proof {
        assert(data@.subrange(start as int, start as int) =~= Seq::<u8>::empty());
    }
    while i < end
        invariant
            start <= i <= end <= data@.len(),
            crc == crc32_accum(data@.subrange(start as int, i as int)),
        decreases end - i,
    {
        proof {
            let pre = data@.subrange(start as int, i as int);
            let post = data@.subrange(start as int, i + 1);
            assert(post.drop_last() =~= pre);
            assert(post.last() == data@[i as int]);
        }
        crc = crc32_feed_exec(crc, data[i]);
        i = i + 1;
    }
    crc ^ 0xFFFFFFFF
}

/// CRC-32 over a whole byte slice.
pub fn crc32(data: &[u8]) -> (r: u32)
    ensures
        r == crc32_spec(data@),
{
    let r = crc32_range(data, 0, data.len());
    proof {
        assert(data@.subrange(0, data@.len() as int) =~= data@);
    }
    r
}

proof fn lemma_crc16_shift_injective(c1: u16, c2: u16)
    requires
        c1 != c2,
    ensures
        crc16_shift(c1) != crc16_shift(c2),
{
    assert((if c1 & 1 == 1 {
        (c1 >> 1) ^ 0xA001u16
    } else {
        c1 >> 1
    }) != (if c2 & 1 == 1 {
        (c2 >> 1) ^ 0xA001u16
    } else {
        c2 >> 1
    })) by (bit_vector)
        requires
            c1 != c2,
    ;
}

proof fn lemma_crc16_feed_injective(c1: u16, b1: u8, c2: u16, b2: u8)
    requires
        c1 ^ (b1 as u16) != c2 ^ (b2 as u16),
    ensures
        crc16_feed(c1, b1) != crc16_feed(c2, b2),
{
    let x0 = c1 ^ (b1 as u16);
    let y0 = c2 ^ (b2 as u16);
    lemma_crc16_shift_injective(x0, y0);
    lemma_crc16_shift_injective(crc16_shift(x0), crc16_shift(y0));
    lemma_crc16_shift_injective(crc16_shift(crc16_shift(x0)), crc16_shift(crc16_shift(y0)));
    let x3 = crc16_shift(crc16_shift(crc16_shift(x0)));
    let y3 = crc16_shift(crc16_shift(crc16_shift(y0)));
    lemma_crc16_shift_injective(x3, y3);
    lemma_crc16_shift_injective(crc16_shift(x3), crc16_shift(y3));
    lemma_crc16_shift_injective(crc16_shift(crc16_shift(x3)), crc16_shift(crc16_shift(y3)));
    let x6 = crc16_shift(crc16_shift(crc16_shift(x3)));
    let y6 = crc16_shift(crc16_shift(crc16_shift(y3)));
    lemma_crc16_shift_injective(x6, y6);
    lemma_crc16_shift_injective(crc16_shift(x6), crc16_shift(y6));
}

/// Two byte sequences of equal length that differ in exactly one position
/// have different CRC-16 checksums: a single corrupted byte is always
/// detected by the per-record checksum.
pub proof fn lemma_crc16_detects_single_byte_change(s1: Seq<u8>, s2: Seq<u8>, i: int)
    requires
        s1.len() == s2.len(),
        0 <= i < s1.len(),
        s1[i] != s2[i],
        forall|j: int| 0 <= j < s1.len() && j != i ==> s1[j] == s2[j],
    ensures
        crc16_spec(s1) != crc16_spec(s2),
    decreases s1.len(),
{
    if i == s1.len() - 1 {
        assert(s1.drop_last() =~= s2.drop_last());
        let c = crc16_spec(s1.drop_last());
        let b1 = s1.last();
        let b2 = s2.last();
        assert(c ^ (b1 as u16) != c ^ (b2 as u16)) by (bit_vector)
            requires
                b1 != b2,
        ;
        lemma_crc16_feed_injective(c, b1, c, b2);
    } else {
        lemma_crc16_detects_single_byte_change(s1.drop_last(), s2.drop_last(), i);
        let c1 = crc16_spec(s1.drop_last());
        let c2 = crc16_spec(s2.drop_last());
        let b = s1.last();
        assert(s2.last() == b);
        assert(c1 ^ (b as u16) != c2 ^ (b as u16)) by (bit_vector)
            requires
                c1 != c2,
        ;
        lemma_crc16_feed_injective(c1, b, c2, b);
    }
}

/// Flipping any single bit of a byte sequence changes its CRC-16, so a
/// one-bit corruption can never slip past an unchanged stored checksum.
pub proof fn lemma_crc16_detects_single_bit_flip(s: Seq<u8>, i: int, bit: u8)
    requires
        0 <= i < s.len(),
        bit < 8,
    ensures
        crc16_spec(s.update(i, s[i] ^ (1u8 << bit))) != crc16_spec(s),
{
    let x = s[i];
    assert((x ^ (1u8 << bit)) != x) by (bit_vector)
        requires
            bit < 8,
    ;
    let s2 = s.update(i, x ^ (1u8 << bit));
    lemma_crc16_detects_single_byte_change(s2, s, i);
}

} // verus!
