//! The mathematical decoder: what one value, one List body, one run of
//! Compound entries, one header, or one whole document denotes when read
//! out of a byte string at a position. The executable readers are proved
//! to return exactly these results.

use vstd::prelude::*;

use vstd::utf8::{decode_utf8, valid_utf8};

use crate::error::NbtError;
use crate::ints::{i16_of_u16, i32_of_u32, i64_of_u64, i8_of_u8, word2, word4, word8};
use crate::model::{spec_insert, SpecEntry, SpecValue};

verus! {

/// Reads a (tag id, name) header. A leading `0x00` is the terminator
/// sentinel: it is returned at once with an empty name, since no length
/// field follows it. Any other tag is followed by a 2-byte big-endian
/// name length and that many bytes of UTF-8.
pub open spec fn dec_header(data: Seq<u8>, pos: int) -> Result<(u8, Seq<char>, int), NbtError> {
    if !(0 <= pos && pos < data.len()) {
        Err(NbtError::Truncated)
    } else {
        let id = data[pos];
        if id == 0x00 {
            Ok((0x00u8, Seq::empty(), pos + 1))
        } else if pos + 3 > data.len() {
            Err(NbtError::Truncated)
        } else {
            let n = word2(data, pos + 1) as int;
            if pos + 3 + n > data.len() {
                Err(NbtError::Truncated)
            } else {
                let bytes = data.subrange(pos + 3, pos + 3 + n);
                if valid_utf8(bytes) {
                    Ok((id, decode_utf8(bytes), pos + 3 + n))
                } else {
                    Err(NbtError::InvalidUtf8)
                }
            }
        }
    }
}

/// Reads the payload of a value whose tag id was already consumed.
/// Array and List counts are signed 32-bit: a negative count (high bit
/// set) fails as a truncation-style error, never as a dedicated
/// negative-length error; a count too large for the remaining bytes
/// surfaces the same way.
pub open spec fn dec_value(id: u8, data: Seq<u8>, pos: int) -> Result<(SpecValue, int), NbtError>
    decreases data.len() - pos, 1int, 0int,
{
    if id == 0x01 {
        if 0 <= pos && pos + 1 <= data.len() {
            Ok((SpecValue::Byte(i8_of_u8(data[pos])), pos + 1))
        } else {
            Err(NbtError::Truncated)
        }
    } else if id == 0x02 {
        if 0 <= pos && pos + 2 <= data.len() {
            Ok((SpecValue::Short(i16_of_u16(word2(data, pos))), pos + 2))
        } else {
            Err(NbtError::Truncated)
        }
    } else if id == 0x03 {
        if 0 <= pos && pos + 4 <= data.len() {
            Ok((SpecValue::Int(i32_of_u32(word4(data, pos))), pos + 4))
        } else {
            Err(NbtError::Truncated)
        }
    } else if id == 0x04 {
        if 0 <= pos && pos + 8 <= data.len() {
            Ok((SpecValue::Long(i64_of_u64(word8(data, pos))), pos + 8))
        } else {
            Err(NbtError::Truncated)
        }
    } else if id == 0x05 {
        if 0 <= pos && pos + 4 <= data.len() {
            Ok((SpecValue::Float(word4(data, pos)), pos + 4))
        } else {
            Err(NbtError::Truncated)
        }
    } else if id == 0x06 {
        if 0 <= pos && pos + 8 <= data.len() {
            Ok((SpecValue::Double(word8(data, pos)), pos + 8))
        } else {
            Err(NbtError::Truncated)
        }
    } else if id == 0x07 {
        if 0 <= pos && pos + 4 <= data.len() {
            let n = word4(data, pos) as int;
            if n >= 0x8000_0000 {
                Err(NbtError::Truncated)
            } else if pos + 4 + n <= data.len() {
                Ok(
                    (
                        SpecValue::ByteArray(
                            data.subrange(pos + 4, pos + 4 + n).map_values(|b: u8| i8_of_u8(b)),
                        ),
                        pos + 4 + n,
                    ),
                )
            } else {
                Err(NbtError::Truncated)
            }
        } else {
            Err(NbtError::Truncated)
        }
    } else if id == 0x08 {
        if 0 <= pos && pos + 2 <= data.len() {
            let n = word2(data, pos) as int;
            if pos + 2 + n <= data.len() {
                let bytes = data.subrange(pos + 2, pos + 2 + n);
                if valid_utf8(bytes) {
                    Ok((SpecValue::String(decode_utf8(bytes)), pos + 2 + n))
                } else {
                    Err(NbtError::InvalidUtf8)
                }
            } else {
                Err(NbtError::Truncated)
            }
        } else {
            Err(NbtError::Truncated)
        }
    } else if id == 0x09 {
        if 0 <= pos && pos + 5 <= data.len() {
            let eid = data[pos];
            let n = word4(data, pos + 1) as int;
            if n >= 0x8000_0000 {
                Err(NbtError::Truncated)
            } else {
                match dec_list(eid, n, data, pos + 5, Seq::empty()) {
                    Ok((vs, p)) => Ok((SpecValue::List(vs), p)),
                    Err(e) => Err(e),
                }
            }
        } else {
            Err(NbtError::Truncated)
        }
    } else if id == 0x0a {
        if 0 <= pos && pos <= data.len() {
            match dec_entries(data, pos, Seq::empty()) {
                Ok((es, p)) => Ok((SpecValue::Compound(es), p)),
                Err(e) => Err(e),
            }
        } else {
            Err(NbtError::Truncated)
        }
    } else if id == 0x0b {
        if 0 <= pos && pos + 4 <= data.len() {
            let n = word4(data, pos) as int;
            if n >= 0x8000_0000 {
                Err(NbtError::Truncated)
            } else if pos + 4 + 4 * n <= data.len() {
                Ok(
                    (
                        SpecValue::IntArray(
                            Seq::new(n as nat, |k: int| i32_of_u32(word4(data, pos + 4 + 4 * k))),
                        ),
                        pos + 4 + 4 * n,
                    ),
                )
            } else {
                Err(NbtError::Truncated)
            }
        } else {
            Err(NbtError::Truncated)
        }
    } else {
        Err(NbtError::InvalidId)
    }
}

/// Reads `n` more payloads of tag `eid` onto `acc`, as a List body.
pub open spec fn dec_list(eid: u8, n: int, data: Seq<u8>, pos: int, acc: Seq<SpecValue>) -> Result<
    (Seq<SpecValue>, int),
    NbtError,
>
    decreases data.len() - pos, 2int, n,
{
    if !(0 <= pos && pos <= data.len()) {
        Err(NbtError::Truncated)
    } else if n <= 0 {
        Ok((acc, pos))
    } else {
        match dec_value(eid, data, pos) {
            Ok((v, p)) => if pos < p && p <= data.len() {
                dec_list(eid, n - 1, data, p, acc.push(v))
            } else {
                Err(NbtError::Truncated)
            },
            Err(e) => Err(e),
        }
    }
}

/// Reads (header, payload) pairs onto `acc` until the terminator, as a
/// Compound body. A later entry under an already-seen name overwrites
/// the earlier one in place.
pub open spec fn dec_entries(data: Seq<u8>, pos: int, acc: Seq<SpecEntry>) -> Result<
    (Seq<SpecEntry>, int),
    NbtError,
>
    decreases data.len() - pos, 0int, 0int,
{
    match dec_header(data, pos) {
        Ok((id, name, p1)) => {
            if id == 0x00 {
                Ok((acc, p1))
            } else {
                match dec_value(id, data, p1) {
                    Ok((v, p2)) => if pos < p2 && p2 <= data.len() {
                        dec_entries(data, p2, spec_insert(acc, name, v))
                    } else {
                        Err(NbtError::Truncated)
                    },
                    Err(e) => Err(e),
                }
            }
        },
        Err(e) => Err(e),
    }
}

/// Reads one whole document: a header whose tag must be the Compound
/// tag `0x0a` (else the root is rejected outright), then the Compound
/// body. Returns the title, the entries, and the end position.
pub open spec fn dec_blob(data: Seq<u8>) -> Result<(Seq<char>, Seq<SpecEntry>, int), NbtError> {
    match dec_header(data, 0) {
        Ok((id, title, p)) => if id != 0x0a {
            Err(NbtError::NonCompoundRoot)
        } else {
            match dec_entries(data, p, Seq::empty()) {
                Ok((es, p2)) => Ok((title, es, p2)),
                Err(e) => Err(e),
            }
        },
        Err(e) => Err(e),
    }
}

} // verus!
