//! Two's-complement reinterpretation between signed and unsigned machine
//! integers, and big-endian byte strings of the unsigned ones. All of it
//! is verified arithmetic; the byte layout here is the whole story of the
//! format's fixed-width fields.

use vstd::prelude::*;

use crate::error::NbtError;

verus! {

// ---------------------------------------------------------------------
// Signed <-> unsigned reinterpretation (two's complement).

pub open spec fn u8_of_i8(x: i8) -> u8 {
    if x >= 0 {
        x as u8
    } else {
        (x + 0x100) as u8
    }
}

pub open spec fn i8_of_u8(b: u8) -> i8 {
    if b < 0x80 {
        b as i8
    } else {
        (b - 0x100) as i8
    }
}

pub open spec fn u16_of_i16(x: i16) -> u16 {
    if x >= 0 {
        x as u16
    } else {
        (x + 0x1_0000) as u16
    }
}

pub open spec fn i16_of_u16(b: u16) -> i16 {
    if b < 0x8000 {
        b as i16
    } else {
        (b - 0x1_0000) as i16
    }
}

pub open spec fn u32_of_i32(x: i32) -> u32 {
    if x >= 0 {
        x as u32
    } else {
        (x + 0x1_0000_0000) as u32
    }
}

pub open spec fn i32_of_u32(b: u32) -> i32 {
    if b < 0x8000_0000 {
        b as i32
    } else {
        (b - 0x1_0000_0000) as i32
    }
}

pub open spec fn u64_of_i64(x: i64) -> u64 {
    if x >= 0 {
        x as u64
    } else {
        (x + 0x1_0000_0000_0000_0000) as u64
    }
}

pub open spec fn i64_of_u64(b: u64) -> i64 {
    if b < 0x8000_0000_0000_0000 {
        b as i64
    } else {
        (b - 0x1_0000_0000_0000_0000) as i64
    }
}

/// The reinterpretations undo one another.
pub proof fn lemma_reinterpret_round_trip()
    ensures
        forall|x: i8| #[trigger] i8_of_u8(u8_of_i8(x)) == x,
        forall|b: u8| #[trigger] u8_of_i8(i8_of_u8(b)) == b,
        forall|x: i16| #[trigger] i16_of_u16(u16_of_i16(x)) == x,
        forall|b: u16| #[trigger] u16_of_i16(i16_of_u16(b)) == b,
        forall|x: i32| #[trigger] i32_of_u32(u32_of_i32(x)) == x,
        forall|b: u32| #[trigger] u32_of_i32(i32_of_u32(b)) == b,
        forall|x: i64| #[trigger] i64_of_u64(u64_of_i64(x)) == x,
        forall|b: u64| #[trigger] u64_of_i64(i64_of_u64(b)) == b,
{
}

// ---------------------------------------------------------------------
// Exec forms of the reinterpretations.

pub fn u8_from_i8(x: i8) -> (r: u8)
    ensures
        r == u8_of_i8(x),
{
    if x >= 0 {
        x as u8
    } else {
        ((x as i16) + 0x100) as u8
    }
}

pub fn i8_from_u8(b: u8) -> (r: i8)
    ensures
        r == i8_of_u8(b),
{
    if b < 0x80 {
        b as i8
    } else {
        ((b as i16) - 0x100) as i8
    }
}

pub fn u16_from_i16(x: i16) -> (r: u16)
    ensures
        r == u16_of_i16(x),
{
    if x >= 0 {
        x as u16
    } else {
        ((x as i32) + 0x1_0000) as u16
    }
}

pub fn i16_from_u16(b: u16) -> (r: i16)
    ensures
        r == i16_of_u16(b),
{
    if b < 0x8000 {
        b as i16
    } else {
        ((b as i32) - 0x1_0000) as i16
    }
}

pub fn u32_from_i32(x: i32) -> (r: u32)
    ensures
        r == u32_of_i32(x),
{
    if x >= 0 {
        x as u32
    } else {
        ((x as i64) + 0x1_0000_0000) as u32
    }
}

pub fn i32_from_u32(b: u32) -> (r: i32)
    ensures
        r == i32_of_u32(b),
{
    if b < 0x8000_0000 {
        b as i32
    } else {
        ((b as i64) - 0x1_0000_0000) as i32
    }
}

pub fn u64_from_i64(x: i64) -> (r: u64)
    ensures
        r == u64_of_i64(x),
{
    if x >= 0 {
        x as u64
    } else {
        ((x as i128) + 0x1_0000_0000_0000_0000) as u64
    }
}

pub fn i64_from_u64(b: u64) -> (r: i64)
    ensures
        r == i64_of_u64(b),
{
    if b < 0x8000_0000_0000_0000 {
        b as i64
    } else {
        ((b as i128) - 0x1_0000_0000_0000_0000) as i64
    }
}

// ---------------------------------------------------------------------
// Big-endian byte strings of the unsigned widths.

pub open spec fn be2(x: u16) -> Seq<u8> {
    seq![(x / 0x100) as u8, (x % 0x100) as u8]
}

pub open spec fn be4(x: u32) -> Seq<u8> {
    seq![
        (x / 0x100_0000) as u8,
        ((x / 0x1_0000) % 0x100) as u8,
        ((x / 0x100) % 0x100) as u8,
        (x % 0x100) as u8,
    ]
}

pub open spec fn be8(x: u64) -> Seq<u8> {
    seq![
        (x / 0x100_0000_0000_0000) as u8,
        ((x / 0x1_0000_0000_0000) % 0x100) as u8,
        ((x / 0x100_0000_0000) % 0x100) as u8,
        ((x / 0x1_0000_0000) % 0x100) as u8,
        ((x / 0x100_0000) % 0x100) as u8,
        ((x / 0x1_0000) % 0x100) as u8,
        ((x / 0x100) % 0x100) as u8,
        (x % 0x100) as u8,
    ]
}

pub fn push_u8(dst: &mut Vec<u8>, x: u8)
    ensures
        final(dst)@ == old(dst)@ + seq![x],
{
    dst.push(x);
    assert(dst@ =~= old(dst)@ + seq![x]);
}

pub fn push_be2(dst: &mut Vec<u8>, x: u16)
    ensures
        final(dst)@ == old(dst)@ + be2(x),
{
    dst.push((x / 0x100) as u8);
    dst.push((x % 0x100) as u8);
    assert(dst@ =~= old(dst)@ + be2(x));
}

pub fn push_be4(dst: &mut Vec<u8>, x: u32)
    ensures
        final(dst)@ == old(dst)@ + be4(x),
{
    dst.push((x / 0x100_0000) as u8);
    dst.push(((x / 0x1_0000) % 0x100) as u8);
    dst.push(((x / 0x100) % 0x100) as u8);
    dst.push((x % 0x100) as u8);
    assert(dst@ =~= old(dst)@ + be4(x));
}

pub fn push_be8(dst: &mut Vec<u8>, x: u64)
    ensures
        final(dst)@ == old(dst)@ + be8(x),
{
    dst.push((x / 0x100_0000_0000_0000) as u8);
    dst.push(((x / 0x1_0000_0000_0000) % 0x100) as u8);
    dst.push(((x / 0x100_0000_0000) % 0x100) as u8);
    dst.push(((x / 0x1_0000_0000) % 0x100) as u8);
    dst.push(((x / 0x100_0000) % 0x100) as u8);
    dst.push(((x / 0x1_0000) % 0x100) as u8);
    dst.push(((x / 0x100) % 0x100) as u8);
    dst.push((x % 0x100) as u8);
    assert(dst@ =~= old(dst)@ + be8(x));
}

// ---------------------------------------------------------------------
// Big-endian words read out of a byte string at a position. The readers
// report a truncated source exactly when the bytes run out.

pub open spec fn word2(data: Seq<u8>, pos: int) -> u16 {
    (data[pos] * 0x100 + data[pos + 1]) as u16
}

pub open spec fn word4(data: Seq<u8>, pos: int) -> u32 {
    (((data[pos] * 0x100 + data[pos + 1]) * 0x100 + data[pos + 2]) * 0x100 + data[pos + 3]) as u32
}

pub open spec fn word8(data: Seq<u8>, pos: int) -> u64 {
    (word4(data, pos) * 0x1_0000_0000 + word4(data, pos + 4)) as u64
}

/// Reading a 2-byte big-endian word out of the bytes that [`be2`] laid
/// down gives the word back.
pub proof fn lemma_be2_read(data: Seq<u8>, pos: int, x: u16)
    requires
        0 <= pos,
        pos + 2 <= data.len(),
        data.subrange(pos, pos + 2) == be2(x),
    ensures
        word2(data, pos) == x,
{
    assert(data[pos] == be2(x)[0]);
    assert(data[pos + 1] == be2(x)[1]);
    assert((x / 0x100) * 0x100 + (x % 0x100) == x) by (bit_vector);
}

/// Reading a 4-byte big-endian word out of the bytes that [`be4`] laid
/// down gives the word back.
pub proof fn lemma_be4_read(data: Seq<u8>, pos: int, x: u32)
    requires
        0 <= pos,
        pos + 4 <= data.len(),
        data.subrange(pos, pos + 4) == be4(x),
    ensures
        word4(data, pos) == x,
{
    assert(data[pos] == be4(x)[0]);
    assert(data[pos + 1] == be4(x)[1]);
    assert(data[pos + 2] == be4(x)[2]);
    assert(data[pos + 3] == be4(x)[3]);
    assert(((x / 0x100_0000) * 0x100 + ((x / 0x1_0000) % 0x100)) * 0x10000 + (((x / 0x100)
        % 0x100) * 0x100 + (x % 0x100)) == x) by (bit_vector);
}

/// Reading an 8-byte big-endian word out of the bytes that [`be8`] laid
/// down gives the word back.
pub proof fn lemma_be8_read(data: Seq<u8>, pos: int, x: u64)
    requires
        0 <= pos,
        pos + 8 <= data.len(),
        data.subrange(pos, pos + 8) == be8(x),
    ensures
        word8(data, pos) == x,
{
    let hi = (x / 0x1_0000_0000) as u32;
    let lo = (x % 0x1_0000_0000) as u32;
    assert(data.subrange(pos, pos + 4) =~= be4(hi)) by {
        assert(data[pos] == be8(x)[0]);
        assert(data[pos + 1] == be8(x)[1]);
        assert(data[pos + 2] == be8(x)[2]);
        assert(data[pos + 3] == be8(x)[3]);
        assert(x / 0x100_0000_0000_0000 == (x / 0x1_0000_0000) / 0x100_0000 && (x
            / 0x1_0000_0000_0000) % 0x100 == ((x / 0x1_0000_0000) / 0x1_0000) % 0x100 && (x
            / 0x100_0000_0000) % 0x100 == ((x / 0x1_0000_0000) / 0x100) % 0x100) by (bit_vector);
    }
    assert(data.subrange(pos + 4, pos + 8) =~= be4(lo)) by {
        assert(data[pos + 4] == be8(x)[4]);
        assert(data[pos + 5] == be8(x)[5]);
        assert(data[pos + 6] == be8(x)[6]);
        assert(data[pos + 7] == be8(x)[7]);
        assert((x / 0x100_0000) % 0x100 == (x % 0x1_0000_0000) / 0x100_0000 && (x / 0x1_0000) % 0x100
            == ((x % 0x1_0000_0000) / 0x1_0000) % 0x100 && (x / 0x100) % 0x100 == ((x
            % 0x1_0000_0000) / 0x100) % 0x100 && x % 0x100 == (x % 0x1_0000_0000)
            % 0x100) by (bit_vector);
    }
    lemma_be4_read(data, pos, hi);
    lemma_be4_read(data, pos + 4, lo);
    assert((x / 0x1_0000_0000) * 0x1_0000_0000 + (x % 0x1_0000_0000) == x) by (bit_vector);
}

pub fn read_u8(data: &Vec<u8>, pos: usize) -> (r: Result<u8, NbtError>)
    ensures
        match r {
            Ok(b) => pos < data@.len() && b == data@[pos as int],
            Err(e) => pos >= data@.len() && e == NbtError::Truncated,
        },
{
    if pos < data.len() {
        Ok(data[pos])
    } else {
        Err(NbtError::Truncated)
    }
}

pub fn read_u16(data: &Vec<u8>, pos: usize) -> (r: Result<u16, NbtError>)
    ensures
        match r {
            Ok(x) => pos + 2 <= data@.len() && x == word2(data@, pos as int),
            Err(e) => pos + 2 > data@.len() && e == NbtError::Truncated,
        },
{
    if pos < data.len() && data.len() - pos >= 2 {
        Ok((data[pos] as u16) * 0x100 + (data[pos + 1] as u16))
    } else {
        Err(NbtError::Truncated)
    }
}

pub fn read_u32(data: &Vec<u8>, pos: usize) -> (r: Result<u32, NbtError>)
    ensures
        match r {
            Ok(x) => pos + 4 <= data@.len() && x == word4(data@, pos as int),
            Err(e) => pos + 4 > data@.len() && e == NbtError::Truncated,
        },
{
    if pos < data.len() && data.len() - pos >= 4 {
        let hi = (data[pos] as u32) * 0x100 + (data[pos + 1] as u32);
        let x = (hi * 0x100 + (data[pos + 2] as u32)) * 0x100 + (data[pos + 3] as u32);
        Ok(x)
    } else {
        Err(NbtError::Truncated)
    }
}

pub fn read_u64(data: &Vec<u8>, pos: usize) -> (r: Result<u64, NbtError>)
    ensures
        match r {
            Ok(x) => pos + 8 <= data@.len() && x == word8(data@, pos as int),
            Err(e) => pos + 8 > data@.len() && e == NbtError::Truncated,
        },
{
    if pos < data.len() && data.len() - pos >= 8 {
        let hi = match read_u32(data, pos) {
            Ok(h) => h,
            Err(e) => {
                return Err(e);
            },
        };
        let lo = match read_u32(data, pos + 4) {
            Ok(l) => l,
            Err(e) => {
                return Err(e);
            },
        };
        Ok((hi as u64) * 0x1_0000_0000 + (lo as u64))
    } else {
        Err(NbtError::Truncated)
    }
}

} // verus!
