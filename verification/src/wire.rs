use vstd::prelude::*;

verus! {

/// Byte order of one frame on the wire. Frames this engine produces are
/// always little-endian; frames received in either order are decoded.
#[derive(Clone, Copy, Debug, PartialEq, Eq, Structural)]
pub enum ByteOrder {
    Little,
    Big,
}

// ---------------------------------------------------------------------------
// Integer encodings
// ---------------------------------------------------------------------------

pub open spec fn le16(x: u16) -> Seq<u8> {
    seq![(x & 0xff) as u8, ((x >> 8) & 0xff) as u8]
}

pub open spec fn le32(x: u32) -> Seq<u8> {
    seq![
        (x & 0xff) as u8,
        ((x >> 8) & 0xff) as u8,
        ((x >> 16) & 0xff) as u8,
        ((x >> 24) & 0xff) as u8,
    ]
}

pub open spec fn le64(x: u64) -> Seq<u8> {
    seq![
        (x & 0xff) as u8,
        ((x >> 8) & 0xff) as u8,
        ((x >> 16) & 0xff) as u8,
        ((x >> 24) & 0xff) as u8,
        ((x >> 32) & 0xff) as u8,
        ((x >> 40) & 0xff) as u8,
        ((x >> 48) & 0xff) as u8,
        ((x >> 56) & 0xff) as u8,
    ]
}

pub open spec fn rd16(s: Seq<u8>, bo: ByteOrder) -> u16
    recommends
        s.len() == 2,
{
    match bo {
        ByteOrder::Little => (s[0] as u16) | ((s[1] as u16) << 8),
        ByteOrder::Big => (s[1] as u16) | ((s[0] as u16) << 8),
    }
}

pub open spec fn rd32(s: Seq<u8>, bo: ByteOrder) -> u32
    recommends
        s.len() == 4,
{
    match bo {
        ByteOrder::Little => (s[0] as u32) | ((s[1] as u32) << 8) | ((s[2] as u32) << 16) | ((
        s[3] as u32) << 24),
        ByteOrder::Big => (s[3] as u32) | ((s[2] as u32) << 8) | ((s[1] as u32) << 16) | ((
        s[0] as u32) << 24),
    }
}

pub open spec fn rd64(s: Seq<u8>, bo: ByteOrder) -> u64
    recommends
        s.len() == 8,
{
    match bo {
        ByteOrder::Little => (s[0] as u64) | ((s[1] as u64) << 8) | ((s[2] as u64) << 16) | ((
        s[3] as u64) << 24) | ((s[4] as u64) << 32) | ((s[5] as u64) << 40) | ((s[6] as u64) << 48)
            | ((s[7] as u64) << 56),
        ByteOrder::Big => (s[7] as u64) | ((s[6] as u64) << 8) | ((s[5] as u64) << 16) | ((
        s[4] as u64) << 24) | ((s[3] as u64) << 32) | ((s[2] as u64) << 40) | ((s[1] as u64) << 48)
            | ((s[0] as u64) << 56),
    }
}

/// Reading back the little-endian encoding of a 16-bit integer yields the
/// integer.
pub broadcast proof fn lemma_rd_le16(x: u16)
    ensures
        #[trigger] rd16(le16(x), ByteOrder::Little) == x,
{
    assert((((x & 0xff) as u8) as u16) | ((((x >> 8) & 0xff) as u8) as u16) << 8 == x)
        by (bit_vector);
}

/// Reading back the little-endian encoding of a 32-bit integer yields the
/// integer.
pub broadcast proof fn lemma_rd_le32(x: u32)
    ensures
        #[trigger] rd32(le32(x), ByteOrder::Little) == x,
{
    assert((((x & 0xff) as u8) as u32) | ((((x >> 8) & 0xff) as u8) as u32) << 8 | ((((x >> 16)
        & 0xff) as u8) as u32) << 16 | ((((x >> 24) & 0xff) as u8) as u32) << 24 == x)
        by (bit_vector);
}

/// Reading back the little-endian encoding of a 64-bit integer yields the
/// integer.
pub broadcast proof fn lemma_rd_le64(x: u64)
    ensures
        #[trigger] rd64(le64(x), ByteOrder::Little) == x,
{
    assert((((x & 0xff) as u8) as u64) | ((((x >> 8) & 0xff) as u8) as u64) << 8 | ((((x >> 16)
        & 0xff) as u8) as u64) << 16 | ((((x >> 24) & 0xff) as u8) as u64) << 24 | ((((x >> 32)
        & 0xff) as u8) as u64) << 32 | ((((x >> 40) & 0xff) as u8) as u64) << 40 | ((((x >> 48)
        & 0xff) as u8) as u64) << 48 | ((((x >> 56) & 0xff) as u8) as u64) << 56 == x)
        by (bit_vector);
}

// ---------------------------------------------------------------------------
// Two's-complement bit patterns of the signed integers
// ---------------------------------------------------------------------------

pub open spec fn u16_of_i16(x: i16) -> u16 {
    if x >= 0 {
        x as u16
    } else {
        (x + 0x10000) as u16
    }
}

pub open spec fn i16_of_u16(y: u16) -> i16 {
    if y < 0x8000 {
        y as i16
    } else {
        (y - 0x10000) as i16
    }
}

pub open spec fn u32_of_i32(x: i32) -> u32 {
    if x >= 0 {
        x as u32
    } else {
        (x + 0x1_0000_0000) as u32
    }
}

pub open spec fn i32_of_u32(y: u32) -> i32 {
    if y < 0x8000_0000 {
        y as i32
    } else {
        (y - 0x1_0000_0000) as i32
    }
}

pub open spec fn u64_of_i64(x: i64) -> u64 {
    if x >= 0 {
        x as u64
    } else {
        (x + 0x1_0000_0000_0000_0000) as u64
    }
}

pub open spec fn i64_of_u64(y: u64) -> i64 {
    if y < 0x8000_0000_0000_0000 {
        y as i64
    } else {
        (y - 0x1_0000_0000_0000_0000) as i64
    }
}

pub broadcast proof fn lemma_i16_bits(x: i16)
    ensures
        #[trigger] i16_of_u16(u16_of_i16(x)) == x,
{
}

pub broadcast proof fn lemma_i32_bits(x: i32)
    ensures
        #[trigger] i32_of_u32(u32_of_i32(x)) == x,
{
}

pub broadcast proof fn lemma_i64_bits(x: i64)
    ensures
        #[trigger] i64_of_u64(u64_of_i64(x)) == x,
{
}

/// The bit pattern of a 16-bit signed integer, as executable code.
pub fn bits_of_i16(x: i16) -> (r: u16)
    ensures
        r == u16_of_i16(x),
{
    if x >= 0 {
        x as u16
    } else {
        ((x as i32) + 0x10000) as u16
    }
}

pub fn i16_of_bits(y: u16) -> (r: i16)
    ensures
        r == i16_of_u16(y),
{
    if y < 0x8000 {
        y as i16
    } else {
        ((y as i32) - 0x10000) as i16
    }
}

/// The bit pattern of a 32-bit signed integer, as executable code.
pub fn bits_of_i32(x: i32) -> (r: u32)
    ensures
        r == u32_of_i32(x),
{
    if x >= 0 {
        x as u32
    } else {
        ((x as i64) + 0x1_0000_0000) as u32
    }
}

pub fn i32_of_bits(y: u32) -> (r: i32)
    ensures
        r == i32_of_u32(y),
{
    if y < 0x8000_0000 {
        y as i32
    } else {
        ((y as i64) - 0x1_0000_0000) as i32
    }
}

/// The bit pattern of a 64-bit signed integer, as executable code.
pub fn bits_of_i64(x: i64) -> (r: u64)
    ensures
        r == u64_of_i64(x),
{
    if x >= 0 {
        x as u64
    } else {
        ((x as i128) + 0x1_0000_0000_0000_0000) as u64
    }
}

pub fn i64_of_bits(y: u64) -> (r: i64)
    ensures
        r == i64_of_u64(y),
{
    if y < 0x8000_0000_0000_0000 {
        y as i64
    } else {
        ((y as i128) - 0x1_0000_0000_0000_0000) as i64
    }
}

// ---------------------------------------------------------------------------
// Alignment padding
// ---------------------------------------------------------------------------

/// Number of nul bytes needed to advance `pos` to a multiple of `a`.
pub open spec fn pad_len(pos: int, a: int) -> int
    recommends
        a >= 1,
        pos >= 0,
{
    if pos % a == 0 {
        0
    } else {
        a - (pos % a)
    }
}

pub open spec fn zeros(n: int) -> Seq<u8> {
    Seq::new(n as nat, |i: int| 0u8)
}

/// The padding bytes written at offset `pos` to reach alignment `a`.
pub open spec fn pad_seq(pos: int, a: int) -> Seq<u8> {
    zeros(pad_len(pos, a))
}

pub broadcast proof fn lemma_pad_len(pos: int, a: int)
    requires
        a >= 1,
        pos >= 0,
    ensures
        0 <= #[trigger] pad_len(pos, a) < a,
        (pos + pad_len(pos, a)) % a == 0,
{
    vstd::arithmetic::div_mod::lemma_fundamental_div_mod(pos, a);
    let q = pos / a;
    let r = pos % a;
    if r != 0 {
        let p = a - r;
        assert(pos + p == a * (q + 1)) by (nonlinear_arith)
            requires
                pos == a * q + r,
                p == a - r,
        ;
        vstd::arithmetic::div_mod::lemma_mod_multiples_vanish(q + 1, 0, a);
    }
}

// ---------------------------------------------------------------------------
// Executable writers
// ---------------------------------------------------------------------------

/// Appends a byte slice to the output buffer.
pub fn push_bytes(buf: &mut Vec<u8>, src: &[u8]) -> (r: ())
    ensures
        final(buf)@ == old(buf)@ + src@,
{
    let mut i: usize = 0;
    while i < src.len()
        invariant
            i <= src@.len(),
            buf@ == old(buf)@ + src@.subrange(0, i as int),
        decreases src@.len() - i,
    {
        buf.push(src[i]);
        proof {
            assert(old(buf)@ + src@.subrange(0, i as int) + seq![src@[i as int]] =~= old(buf)@
                + src@.subrange(0, i + 1));
        }
        i = i + 1;
    }
    proof {
        assert(old(buf)@ + src@.subrange(0, src@.len() as int) =~= old(buf)@ + src@);
    }
}

pub fn push_u16(buf: &mut Vec<u8>, x: u16)
    ensures
        final(buf)@ == old(buf)@ + le16(x),
{
    buf.push((x & 0xff) as u8);
    buf.push(((x >> 8) & 0xff) as u8);
    proof {
        assert(buf@ =~= old(buf)@ + le16(x));
    }
}

pub fn push_u32(buf: &mut Vec<u8>, x: u32)
    ensures
        final(buf)@ == old(buf)@ + le32(x),
{
    buf.push((x & 0xff) as u8);
    buf.push(((x >> 8) & 0xff) as u8);
    buf.push(((x >> 16) & 0xff) as u8);
    buf.push(((x >> 24) & 0xff) as u8);
    proof {
        assert(buf@ =~= old(buf)@ + le32(x));
    }
}

pub fn push_u64(buf: &mut Vec<u8>, x: u64)
    ensures
        final(buf)@ == old(buf)@ + le64(x),
{
    buf.push((x & 0xff) as u8);
    buf.push(((x >> 8) & 0xff) as u8);
    buf.push(((x >> 16) & 0xff) as u8);
    buf.push(((x >> 24) & 0xff) as u8);
    buf.push(((x >> 32) & 0xff) as u8);
    buf.push(((x >> 40) & 0xff) as u8);
    buf.push(((x >> 48) & 0xff) as u8);
    buf.push(((x >> 56) & 0xff) as u8);
    proof {
        assert(buf@ =~= old(buf)@ + le64(x));
    }
}

/// Appends the nul padding that advances the buffer to alignment `a`.
pub fn push_pad(buf: &mut Vec<u8>, a: usize)
    requires
        1 <= a <= 8,
    ensures
        final(buf)@ == old(buf)@ + pad_seq(old(buf)@.len() as int, a as int),
        (final(buf)@.len() as int) % (a as int) == 0,
{
    let need: usize = if buf.len() % a == 0 {
        0
    } else {
        a - (buf.len() % a)
    };
    let mut i: usize = 0;
    while i < need
        invariant
            i <= need,
            buf@ == old(buf)@ + zeros(i as int),
        decreases need - i,
    {
        buf.push(0);
        proof {
            assert(old(buf)@ + zeros(i as int) + seq![0u8] =~= old(buf)@ + zeros(i + 1));
        }
        i = i + 1;
    }
    proof {
        assert(need == pad_len(old(buf)@.len() as int, a as int));
        lemma_pad_len(old(buf)@.len() as int, a as int);
    }
}

/// Overwrites the four bytes at `pos` with the little-endian encoding of `x`,
/// leaving the rest of the buffer unchanged.
pub fn write_u32_at(buf: &mut Vec<u8>, pos: usize, x: u32)
    requires
        pos + 4 <= old(buf)@.len(),
    ensures
        final(buf)@.len() == old(buf)@.len(),
        final(buf)@ == old(buf)@.subrange(0, pos as int) + le32(x) + old(buf)@.subrange(
            pos as int + 4,
            old(buf)@.len() as int,
        ),
{
    let n: usize = buf.len();
    proof {
        assert(n as int == old(buf)@.len());
    }
    buf.set(pos, (x & 0xff) as u8);
    buf.set(pos + 1, ((x >> 8) & 0xff) as u8);
    buf.set(pos + 2, ((x >> 16) & 0xff) as u8);
    buf.set(pos + 3, ((x >> 24) & 0xff) as u8);
    proof {
        assert(buf@ =~= old(buf)@.subrange(0, pos as int) + le32(x) + old(buf)@.subrange(
            pos as int + 4,
            old(buf)@.len() as int,
        ));
    }
}

// ---------------------------------------------------------------------------
// Executable readers
// ---------------------------------------------------------------------------

pub fn read_u16(data: &[u8], pos: usize, bo: ByteOrder) -> (r: u16)
    requires
        pos + 2 <= data@.len(),
    ensures
        r == rd16(data@.subrange(pos as int, pos as int + 2), bo),
{
    let b0 = data[pos];
    let b1 = data[pos + 1];
    proof {
        let s = data@.subrange(pos as int, pos as int + 2);
        assert(s[0] == b0 && s[1] == b1);
    }
    match bo {
        ByteOrder::Little => (b0 as u16) | ((b1 as u16) << 8),
        ByteOrder::Big => (b1 as u16) | ((b0 as u16) << 8),
    }
}

pub fn read_u32(data: &[u8], pos: usize, bo: ByteOrder) -> (r: u32)
    requires
        pos + 4 <= data@.len(),
    ensures
        r == rd32(data@.subrange(pos as int, pos as int + 4), bo),
{
    let b0 = data[pos];
    let b1 = data[pos + 1];
    let b2 = data[pos + 2];
    let b3 = data[pos + 3];
    proof {
        let s = data@.subrange(pos as int, pos as int + 4);
        assert(s[0] == b0 && s[1] == b1 && s[2] == b2 && s[3] == b3);
    }
    match bo {
        ByteOrder::Little => (b0 as u32) | ((b1 as u32) << 8) | ((b2 as u32) << 16) | ((b3 as u32)
            << 24),
        ByteOrder::Big => (b3 as u32) | ((b2 as u32) << 8) | ((b1 as u32) << 16) | ((b0 as u32)
            << 24),
    }
}

pub fn read_u64(data: &[u8], pos: usize, bo: ByteOrder) -> (r: u64)
    requires
        pos + 8 <= data@.len(),
    ensures
        r == rd64(data@.subrange(pos as int, pos as int + 8), bo),
{
    let b0 = data[pos];
    let b1 = data[pos + 1];
    let b2 = data[pos + 2];
    let b3 = data[pos + 3];
    let b4 = data[pos + 4];
    let b5 = data[pos + 5];
    let b6 = data[pos + 6];
    let b7 = data[pos + 7];
    proof {
        let s = data@.subrange(pos as int, pos as int + 8);
        assert(s[0] == b0 && s[1] == b1 && s[2] == b2 && s[3] == b3 && s[4] == b4 && s[5] == b5
            && s[6] == b6 && s[7] == b7);
    }
    match bo {
        ByteOrder::Little => (b0 as u64) | ((b1 as u64) << 8) | ((b2 as u64) << 16) | ((b3 as u64)
            << 24) | ((b4 as u64) << 32) | ((b5 as u64) << 40) | ((b6 as u64) << 48) | ((b7 as u64)
            << 56),
        ByteOrder::Big => (b7 as u64) | ((b6 as u64) << 8) | ((b5 as u64) << 16) | ((b4 as u64)
            << 24) | ((b3 as u64) << 32) | ((b2 as u64) << 40) | ((b1 as u64) << 48) | ((b0 as u64)
            << 56),
    }
}

} // verus!
