use vstd::prelude::*;

verus! {

/// The 16-bit little-endian value stored at `s[i..i + 2]`.
pub open spec fn u16_at(s: Seq<u8>, i: int) -> u16 {
    (s[i] as int + 256 * s[i + 1] as int) as u16
}

/// The 32-bit little-endian value stored at `s[i..i + 4]`.
pub open spec fn u32_at(s: Seq<u8>, i: int) -> u32 {
    (s[i] as int + 256 * s[i + 1] as int + 65536 * s[i + 2] as int + 16777216 * s[i
        + 3] as int) as u32
}

/// The 16-bit signed value stored at `s[i..i + 2]`.
pub open spec fn i16_at(s: Seq<u8>, i: int) -> i16 {
    u16_at(s, i) as i16
}

/// Little-endian encoding of a 16-bit value.
pub open spec fn u16_bytes(v: u16) -> Seq<u8> {
    seq![(v % 256) as u8, (v / 256) as u8]
}

/// Little-endian encoding of a 32-bit value.
pub open spec fn u32_bytes(v: u32) -> Seq<u8> {
    seq![(v % 256) as u8, ((v / 256) % 256) as u8, ((v / 65536) % 256) as u8, (v / 16777216) as u8]
}

/// Little-endian encoding of a signed 16-bit value.
pub open spec fn i16_bytes(v: i16) -> Seq<u8> {
    u16_bytes(v as u16)
}

pub proof fn lemma_u16_round_trip(v: u16)
    ensures
        u16_at(u16_bytes(v), 0) == v,
{
    let b = u16_bytes(v);
    assert(b[0] as int + 256 * b[1] as int == v) by (nonlinear_arith)
        requires
            b[0] == (v % 256) as u8,
            b[1] == (v / 256) as u8,
            v < 65536,
    ;
}

pub proof fn lemma_u32_round_trip(v: u32)
    ensures
        u32_at(u32_bytes(v), 0) == v,
{
    assert((v % 256) + 256 * ((v / 256) % 256) + 65536 * ((v / 65536) % 256) + 16777216 * (v
        / 16777216) == v) by (bit_vector);
}

/// Reading a value back from the middle of a concatenation.
pub proof fn lemma_u16_at_concat(a: Seq<u8>, v: u16, b: Seq<u8>)
    ensures
        u16_at(a + u16_bytes(v) + b, a.len() as int) == v,
{
    let s = a + u16_bytes(v) + b;
    assert(s[a.len() as int] == u16_bytes(v)[0]);
    assert(s[a.len() + 1int] == u16_bytes(v)[1]);
    lemma_u16_round_trip(v);
}

pub proof fn lemma_u32_at_concat(a: Seq<u8>, v: u32, b: Seq<u8>)
    ensures
        u32_at(a + u32_bytes(v) + b, a.len() as int) == v,
{
    let s = a + u32_bytes(v) + b;
    assert(s[a.len() as int] == u32_bytes(v)[0]);
    assert(s[a.len() + 1int] == u32_bytes(v)[1]);
    assert(s[a.len() + 2int] == u32_bytes(v)[2]);
    assert(s[a.len() + 3int] == u32_bytes(v)[3]);
    lemma_u32_round_trip(v);
}

pub proof fn lemma_i16_at_concat(a: Seq<u8>, v: i16, b: Seq<u8>)
    ensures
        i16_at(a + i16_bytes(v) + b, a.len() as int) == v,
{
    lemma_u16_at_concat(a, v as u16, b);
    assert((v as u16) as i16 == v) by (bit_vector);
}

/// A value read inside the first part of a concatenation.
pub proof fn lemma_u16_at_prefix(a: Seq<u8>, b: Seq<u8>, i: int)
    requires
        0 <= i,
        i + 2 <= a.len(),
    ensures
        u16_at(a + b, i) == u16_at(a, i),
{
    assert((a + b)[i] == a[i]);
    assert((a + b)[i + 1] == a[i + 1]);
}

/// A value read inside the second part of a concatenation.
pub proof fn lemma_u16_at_suffix(a: Seq<u8>, b: Seq<u8>, i: int)
    requires
        0 <= i,
        i + 2 <= b.len(),
    ensures
        u16_at(a + b, a.len() + i) == u16_at(b, i),
{
    assert((a + b)[a.len() + i] == b[i]);
    assert((a + b)[a.len() + i + 1] == b[i + 1]);
}

pub proof fn lemma_u32_at_prefix(a: Seq<u8>, b: Seq<u8>, i: int)
    requires
        0 <= i,
        i + 4 <= a.len(),
    ensures
        u32_at(a + b, i) == u32_at(a, i),
{
    assert((a + b)[i] == a[i]);
    assert((a + b)[i + 1] == a[i + 1]);
    assert((a + b)[i + 2] == a[i + 2]);
    assert((a + b)[i + 3] == a[i + 3]);
}

pub proof fn lemma_u32_at_suffix(a: Seq<u8>, b: Seq<u8>, i: int)
    requires
        0 <= i,
        i + 4 <= b.len(),
    ensures
        u32_at(a + b, a.len() + i) == u32_at(b, i),
{
    assert((a + b)[a.len() + i] == b[i]);
    assert((a + b)[a.len() + i + 1] == b[i + 1]);
    assert((a + b)[a.len() + i + 2] == b[i + 2]);
    assert((a + b)[a.len() + i + 3] == b[i + 3]);
}

/// Reads a little-endian `u16` at `pos`, or `None` when fewer than two bytes remain.
pub fn read_u16(data: &[u8], pos: usize) -> (r: Option<u16>)
    ensures
        r == (if pos + 2 <= data@.len() {
            Some(u16_at(data@, pos as int))
        } else {
            None::<u16>
        }),
{
    if pos > data.len() || data.len() - pos < 2 {
        return None;
    }
    let lo = data[pos] as u16;
    let hi = data[pos + 1] as u16;
    Some(lo + 256 * hi)
}

/// Reads a little-endian `i16` at `pos`, or `None` when fewer than two bytes remain.
pub fn read_i16(data: &[u8], pos: usize) -> (r: Option<i16>)
    ensures
        r == (if pos + 2 <= data@.len() {
            Some(i16_at(data@, pos as int))
        } else {
            None::<i16>
        }),
{
    match read_u16(data, pos) {
        Some(v) => Some(v as i16),
        None => None,
    }
}

/// Reads a little-endian `u32` at `pos`, or `None` when fewer than four bytes remain.
pub fn read_u32(data: &[u8], pos: usize) -> (r: Option<u32>)
    ensures
        r == (if pos + 4 <= data@.len() {
            Some(u32_at(data@, pos as int))
        } else {
            None::<u32>
        }),
{
    if pos > data.len() || data.len() - pos < 4 {
        return None;
    }
    let b0 = data[pos] as u32;
    let b1 = data[pos + 1] as u32;
    let b2 = data[pos + 2] as u32;
    let b3 = data[pos + 3] as u32;
    Some(b0 + 256 * b1 + 65536 * b2 + 16777216 * b3)
}

/// Appends the little-endian bytes of `v`.
pub fn push_u16(out: &mut Vec<u8>, v: u16)
    ensures
        final(out)@ == old(out)@ + u16_bytes(v),
{
    out.push((v % 256) as u8);
    out.push((v / 256) as u8);
    assert(final(out)@ =~= old(out)@ + u16_bytes(v));
}

/// Appends the little-endian bytes of `v`.
pub fn push_i16(out: &mut Vec<u8>, v: i16)
    ensures
        final(out)@ == old(out)@ + i16_bytes(v),
{
    push_u16(out, v as u16);
}

/// Appends the little-endian bytes of `v`.
pub fn push_u32(out: &mut Vec<u8>, v: u32)
    ensures
        final(out)@ == old(out)@ + u32_bytes(v),
{
    out.push((v % 256) as u8);
    out.push(((v / 256) % 256) as u8);
    out.push(((v / 65536) % 256) as u8);
    out.push((v / 16777216) as u8);
    assert(final(out)@ =~= old(out)@ + u32_bytes(v));
}

/// Appends every byte of `src`.
pub fn push_all(out: &mut Vec<u8>, src: &[u8])
    ensures
        final(out)@ == old(out)@ + src@,
{
    let mut i: usize = 0;
    while i < src.len()
        invariant
            0 <= i <= src@.len(),
            out@ == old(out)@ + src@.subrange(0, i as int),
        decreases src@.len() - i,
    {
        out.push(src[i]);
        i = i + 1;
        assert(out@ =~= old(out)@ + src@.subrange(0, i as int));
    }
    assert(src@.subrange(0, src@.len() as int) =~= src@);
}

/// A copy of `data[start..end]`.
pub fn copy_range(data: &[u8], start: usize, end: usize) -> (r: Vec<u8>)
    requires
        start <= end <= data@.len(),
    ensures
        r@ == data@.subrange(start as int, end as int),
{
    let mut out: Vec<u8> = Vec::new();
    let mut i: usize = start;
    while i < end
        invariant
            start <= i <= end <= data@.len(),
            out@ == data@.subrange(start as int, i as int),
        decreases end - i,
    {
        out.push(data[i]);
        i = i + 1;
        assert(out@ =~= data@.subrange(start as int, i as int));
    }
    out
}

} // verus!
