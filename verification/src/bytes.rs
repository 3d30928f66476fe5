use vstd::prelude::*;

verus! {

/// Big-endian bytes of a 16-bit value.
pub open spec fn be16(v: u16) -> Seq<u8> {
    seq![(v >> 8) as u8, v as u8]
}

/// Big-endian bytes of a 32-bit value.
pub open spec fn be32(v: u32) -> Seq<u8> {
    seq![(v >> 24) as u8, (v >> 16) as u8, (v >> 8) as u8, v as u8]
}

/// The 32-bit value whose big-endian bytes are `b0 b1 b2 b3`.
pub open spec fn word_of(b0: u8, b1: u8, b2: u8, b3: u8) -> u32 {
    ((b0 as u32) << 24) | ((b1 as u32) << 16) | ((b2 as u32) << 8) | (b3 as u32)
}

/// The 16-bit value whose big-endian bytes are `b0 b1`.
pub open spec fn half_of(b0: u8, b1: u8) -> u16 {
    ((b0 as u16) << 8) | (b1 as u16)
}

/// The big-endian word stored at `at` in `s`.
pub open spec fn word_at(s: Seq<u8>, at: int) -> u32 {
    word_of(s[at], s[at + 1], s[at + 2], s[at + 3])
}

/// Reading the big-endian bytes of a word gives the word back, and bytes that form a word
/// are that word's big-endian bytes.
pub proof fn lemma_be32_roundtrip(v: u32)
    ensures
        word_of((v >> 24) as u8, (v >> 16) as u8, (v >> 8) as u8, v as u8) == v,
{
    assert(((((v >> 24) as u8) as u32) << 24) | ((((v >> 16) as u8) as u32) << 16) | ((((v >> 8)
        as u8) as u32) << 8) | ((v as u8) as u32) == v) by (bit_vector);
}

/// The bytes of a word built from four bytes are those four bytes.
pub proof fn lemma_word_of_bytes(b0: u8, b1: u8, b2: u8, b3: u8)
    ensures
        be32(word_of(b0, b1, b2, b3)) == seq![b0, b1, b2, b3],
{
    let w = word_of(b0, b1, b2, b3);
    assert((((((b0 as u32) << 24) | ((b1 as u32) << 16) | ((b2 as u32) << 8) | (b3 as u32)) >> 24)
        as u8) == b0) by (bit_vector);
    assert((((((b0 as u32) << 24) | ((b1 as u32) << 16) | ((b2 as u32) << 8) | (b3 as u32)) >> 16)
        as u8) == b1) by (bit_vector);
    assert((((((b0 as u32) << 24) | ((b1 as u32) << 16) | ((b2 as u32) << 8) | (b3 as u32)) >> 8)
        as u8) == b2) by (bit_vector);
    assert(((((b0 as u32) << 24) | ((b1 as u32) << 16) | ((b2 as u32) << 8) | (b3 as u32))
        as u8) == b3) by (bit_vector);
    assert(be32(w) =~= seq![b0, b1, b2, b3]);
}

/// Reading the big-endian bytes of a half-word gives it back.
pub proof fn lemma_be16_roundtrip(v: u16)
    ensures
        half_of((v >> 8) as u8, v as u8) == v,
{
    assert(((((v >> 8) as u8) as u16) << 8) | ((v as u8) as u16) == v) by (bit_vector);
}

/// Big-endian bytes of a 32-bit value.
pub fn u32_be_bytes(v: u32) -> (b: [u8; 4])
    ensures
        b@ == be32(v),
{
    let b = [(v >> 24) as u8, (v >> 16) as u8, (v >> 8) as u8, v as u8];
    assert(b@ =~= be32(v));
    b
}

/// Appends the big-endian bytes of a 32-bit value.
pub fn push_be32(out: &mut Vec<u8>, v: u32)
    ensures
        final(out)@ == old(out)@ + be32(v),
{
    out.push((v >> 24) as u8);
    out.push((v >> 16) as u8);
    out.push((v >> 8) as u8);
    out.push(v as u8);
    assert(final(out)@ =~= old(out)@ + be32(v));
}

/// Appends the big-endian bytes of a 16-bit value.
pub fn push_be16(out: &mut Vec<u8>, v: u16)
    ensures
        final(out)@ == old(out)@ + be16(v),
{
    out.push((v >> 8) as u8);
    out.push(v as u8);
    assert(final(out)@ =~= old(out)@ + be16(v));
}

/// Appends all of `src` to `out`.
pub fn push_all(out: &mut Vec<u8>, src: &[u8])
    ensures
        final(out)@ == old(out)@ + src@,
{
    let mut i: usize = 0;
    while i < src.len()
        invariant
            0 <= i <= src.len(),
            out@ == old(out)@ + src@.subrange(0, i as int),
        decreases src.len() - i,
    {
        out.push(src[i]);
        i = i + 1;
        assert(out@ =~= old(out)@ + src@.subrange(0, i as int));
    }
    assert(src@.subrange(0, src.len() as int) =~= src@);
}

/// A copy of `src[start..end]`.
pub fn copy_range(src: &[u8], start: usize, end: usize) -> (r: Vec<u8>)
    requires
        start <= end <= src.len(),
    ensures
        r@ == src@.subrange(start as int, end as int),
{
    let mut out: Vec<u8> = Vec::new();
    let mut i: usize = start;
    while i < end
        invariant
            start <= i <= end <= src.len(),
            out@ == src@.subrange(start as int, i as int),
        decreases end - i,
    {
        out.push(src[i]);
        i = i + 1;
        assert(out@ =~= src@.subrange(start as int, i as int));
    }
    out
}

/// The big-endian word at `offset`, if four bytes are there.
pub fn read_word(bytes: &[u8], offset: usize) -> (r: Option<u32>)
    ensures
        r.is_some() <==> offset + 4 <= bytes@.len(),
        r.is_some() ==> r.unwrap() == word_at(bytes@, offset as int),
{
    if offset > bytes.len() || bytes.len() - offset < 4 {
        return None;
    }
    let b0 = bytes[offset] as u32;
    let b1 = bytes[offset + 1] as u32;
    let b2 = bytes[offset + 2] as u32;
    let b3 = bytes[offset + 3] as u32;
    Some((b0 << 24) | (b1 << 16) | (b2 << 8) | b3)
}

} // verus!
