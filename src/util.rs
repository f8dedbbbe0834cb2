use vstd::prelude::*;

verus! {

/// Big-endian encoding of a 32-bit integer.
pub open spec fn u32_be(x: u32) -> Seq<u8> {
    seq![(x >> 24u32) as u8, (x >> 16u32) as u8, (x >> 8u32) as u8, x as u8]
}

/// Big-endian encoding of a 16-bit integer.
pub open spec fn u16_be(x: u16) -> Seq<u8> {
    seq![(x >> 8u16) as u8, x as u8]
}

/// The integer that four bytes encode, big-endian.
pub open spec fn be_u32(b: Seq<u8>) -> u32 {
    ((b[0] as u32) << 24u32) | ((b[1] as u32) << 16u32) | ((b[2] as u32) << 8u32) | (b[3] as u32)
}

/// The largest value of a `w`-bit digit.
pub open spec fn digit_max(w: u8) -> u8 {
    if w == 1 {
        1
    } else if w == 2 {
        3
    } else if w == 4 {
        15
    } else {
        255
    }
}

pub open spec fn valid_width(w: u8) -> bool {
    w == 1 || w == 2 || w == 4 || w == 8
}

/// The `i`-th `w`-bit digit of `s`, read as a big-endian bit string:
/// `(2^w - 1) AND (byte(s, floor(i * w / 8)) >> (8 - (w * (i % (8 / w)) + w)))`.
pub open spec fn coef(s: Seq<u8>, i: int, w: u8) -> u8 {
    let byte = s[i * w / 8];
    digit_max(w) & (byte >> coef_shift(i, w))
}

pub open spec fn coef_shift(i: int, w: u8) -> u8 {
    (8int - (w as int * (i % (8int / w as int)) + w as int)) as u8
}

pub fn u32str(x: u32) -> (r: Vec<u8>)
    ensures
        r@ == u32_be(x),
{
    let mut r: Vec<u8> = Vec::new();
    r.push((x >> 24u32) as u8);
    r.push((x >> 16u32) as u8);
    r.push((x >> 8u32) as u8);
    r.push(x as u8);
    assert(r@ =~= u32_be(x));
    r
}

pub fn u16str(x: u16) -> (r: Vec<u8>)
    ensures
        r@ == u16_be(x),
{
    let mut r: Vec<u8> = Vec::new();
    r.push((x >> 8u16) as u8);
    r.push(x as u8);
    assert(r@ =~= u16_be(x));
    r
}

pub fn str32u(b: &[u8]) -> (r: u32)
    requires
        b@.len() >= 4,
    ensures
        r == be_u32(b@),
{
    ((b[0] as u32) << 24u32) | ((b[1] as u32) << 16u32) | ((b[2] as u32) << 8u32) | (b[3] as u32)
}

pub proof fn lemma_be_u32_of_u32_be(x: u32)
    ensures
        be_u32(u32_be(x)) == x,
{
    let b0 = (x >> 24u32) as u8;
    let b1 = (x >> 16u32) as u8;
    let b2 = (x >> 8u32) as u8;
    let b3 = x as u8;
    assert(((b0 as u32) << 24u32) | ((b1 as u32) << 16u32) | ((b2 as u32) << 8u32) | (b3 as u32)
        == x) by (bit_vector)
        requires
            b0 == (x >> 24u32) as u8,
            b1 == (x >> 16u32) as u8,
            b2 == (x >> 8u32) as u8,
            b3 == x as u8,
    ;
}

pub proof fn lemma_u32_be_of_be_u32(b: Seq<u8>)
    requires
        b.len() == 4,
    ensures
        u32_be(be_u32(b)) == b,
{
    let (b0, b1, b2, b3) = (b[0], b[1], b[2], b[3]);
    let x = be_u32(b);
    assert((x >> 24u32) as u8 == b0 && (x >> 16u32) as u8 == b1 && (x >> 8u32) as u8 == b2
        && x as u8 == b3) by (bit_vector)
        requires
            x == ((b0 as u32) << 24u32) | ((b1 as u32) << 16u32) | ((b2 as u32) << 8u32) | (
            b3 as u32),
    ;
    assert(u32_be(x) =~= b);
}

/// The `i`-th `w`-bit digit of `s`.
pub fn coef_of(s: &[u8], i: usize, w: u8) -> (r: u8)
    requires
        valid_width(w),
        i * w / 8 < s@.len(),
    ensures
        r == coef(s@, i as int, w),
        r <= digit_max(w),
{
    let (idx, shift, mask): (usize, u8, u8) = if w == 1 {
        assert(i * w == i) by (nonlinear_arith) requires w == 1;
        (i / 8, 7 - (i % 8) as u8, 1)
    } else if w == 2 {
        assert(i * w == 2 * i) by (nonlinear_arith) requires w == 2;
        (i / 4, 6 - 2 * ((i % 4) as u8), 3)
    } else if w == 4 {
        assert(i * w == 4 * i) by (nonlinear_arith) requires w == 4;
        (i / 2, 4 - 4 * ((i % 2) as u8), 15)
    } else {
        assert(w == 8);
        assert(i * w == 8 * i) by (nonlinear_arith) requires w == 8;
        (i, 0, 255)
    };
    assert(idx == i * w / 8 && shift == coef_shift(i as int, w) && mask == digit_max(w));
    let byte = s[idx];
    let r = mask & (byte >> shift);
    assert(mask & (byte >> shift) <= mask) by (bit_vector);
    r
}

/// Appends `data` to `buf`.
pub fn extend(buf: &mut Vec<u8>, data: &[u8])
    ensures
        final(buf)@ == old(buf)@ + data@,
{
    let mut i: usize = 0;
    while i < data.len()
        invariant
            0 <= i <= data@.len(),
            buf@ == old(buf)@ + data@.subrange(0, i as int),
        decreases data@.len() - i,
    {
        buf.push(data[i]);
        i = i + 1;
        assert(data@.subrange(0, i as int) == data@.subrange(0, i - 1) + seq![data@[i - 1]]);
    }
    assert(data@.subrange(0, data@.len() as int) == data@);
}

} // verus!

verus! {

/// Appends `data[start..end]` to `buf`.
pub fn extend_range(buf: &mut Vec<u8>, data: &[u8], start: usize, end: usize)
    requires
        start <= end <= data@.len(),
    ensures
        final(buf)@ == old(buf)@ + data@.subrange(start as int, end as int),
{
    let mut i: usize = start;
    while i < end
        invariant
            start <= i <= end <= data@.len(),
            buf@ == old(buf)@ + data@.subrange(start as int, i as int),
        decreases end - i,
    {
        buf.push(data[i]);
        i = i + 1;
        assert(data@.subrange(start as int, i as int) == data@.subrange(start as int, i - 1)
            + seq![data@[i - 1]]);
    }
}

} // verus!

verus! {

/// The big-endian integer in `data[off..off + 4]`.
pub fn read_u32(data: &[u8], off: usize) -> (r: u32)
    requires
        off + 4 <= data@.len(),
    ensures
        r == be_u32(data@.subrange(off as int, off + 4)),
{
    ((data[off] as u32) << 24u32) | ((data[off + 1] as u32) << 16u32) | ((data[off + 2] as u32)
        << 8u32) | (data[off + 3] as u32)
}

} // verus!
