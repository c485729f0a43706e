//! The executable tagged value and its byte-exact codec: identity and
//! size, header writing and reading, and the recursive payload write
//! and read routines, each proved against the mathematical model.

use vstd::prelude::*;

use vstd::slice::slice_to_vec;
use vstd::utf8::encode_utf8;

use crate::decoding::{dec_entries, dec_header, dec_list, dec_value};
use crate::error::NbtError;
use crate::ints::{
    i16_from_u16, i32_from_u32, i32_of_u32, i64_from_u64, i8_from_u8, i8_of_u8, push_be2, push_be4,
    push_be8, push_u8, read_u16, read_u32, read_u64, read_u8, u16_from_i16, u32_from_i32,
    u64_from_i64, u8_from_i8, word4,
};
use crate::model::{
    elem_id, enc, enc_elems, enc_entries, enc_header, entries_len, homogeneous,
    lemma_entries_hom_iff, lemma_elems_hom_iff, lemma_spec_find, lists_homogeneous, payload_len,
    spec_find, spec_id, spec_insert, spec_lookup, SpecEntry, SpecValue,
};
use crate::strings::{str_byte_len, string_from_utf8};

verus! {

/// A value of the Named Binary Tag format. The two floating-point
/// variants carry their IEEE-754 bit patterns, so a value round-trips
/// through the codec bit for bit. A Compound keeps its entries in
/// insertion order; names are unique.
#[derive(Debug, PartialEq)]
pub enum NbtValue {
    Byte(i8),
    Short(i16),
    Int(i32),
    Long(i64),
    Float(u32),
    Double(u64),
    ByteArray(Vec<i8>),
    String(String),
    List(Vec<NbtValue>),
    Compound(Vec<(String, NbtValue)>),
    IntArray(Vec<i32>),
}

/// The abstract form of a value.
pub open spec fn value_view(v: NbtValue) -> SpecValue
    decreases v,
{
    match v {
        NbtValue::Byte(x) => SpecValue::Byte(x),
        NbtValue::Short(x) => SpecValue::Short(x),
        NbtValue::Int(x) => SpecValue::Int(x),
        NbtValue::Long(x) => SpecValue::Long(x),
        NbtValue::Float(b) => SpecValue::Float(b),
        NbtValue::Double(b) => SpecValue::Double(b),
        NbtValue::ByteArray(a) => SpecValue::ByteArray(a@),
        NbtValue::String(s) => SpecValue::String(s@),
        NbtValue::List(vs) => SpecValue::List(elems_view(vs@)),
        NbtValue::Compound(es) => SpecValue::Compound(entries_view(es@)),
        NbtValue::IntArray(a) => SpecValue::IntArray(a@),
    }
}

impl View for NbtValue {
    type V = SpecValue;

    open spec fn view(&self) -> SpecValue {
        value_view(*self)
    }
}

/// The abstract form of a sequence of values.
pub open spec fn elems_view(s: Seq<NbtValue>) -> Seq<SpecValue>
    decreases s,
{
    Seq::new(
        s.len(),
        |i: int|
            if 0 <= i < s.len() {
                value_view(s[i])
            } else {
                SpecValue::Byte(0)
            },
    )
}

/// The abstract form of a sequence of named entries.
pub open spec fn entries_view(s: Seq<(String, NbtValue)>) -> Seq<SpecEntry>
    decreases s,
{
    Seq::new(
        s.len(),
        |i: int|
            if 0 <= i < s.len() {
                SpecEntry { name: s[i].0@, value: value_view(s[i].1) }
            } else {
                SpecEntry { name: Seq::empty(), value: SpecValue::Byte(0) }
            },
    )
}

impl NbtValue {
    /// The type ID of this `NbtValue`, a single byte in the range
    /// `0x01` to `0x0b`.
    pub fn id(&self) -> (r: u8)
        ensures
            r == spec_id(self@),
    {
        match self {
            NbtValue::Byte(_) => 0x01,
            NbtValue::Short(_) => 0x02,
            NbtValue::Int(_) => 0x03,
            NbtValue::Long(_) => 0x04,
            NbtValue::Float(_) => 0x05,
            NbtValue::Double(_) => 0x06,
            NbtValue::ByteArray(_) => 0x07,
            NbtValue::String(_) => 0x08,
            NbtValue::List(_) => 0x09,
            NbtValue::Compound(_) => 0x0a,
            NbtValue::IntArray(_) => 0x0b,
        }
    }

    /// The length of the payload of this `NbtValue`, in bytes.
    #[verifier::loop_isolation(false)]
    pub fn len(&self) -> (n: usize)
        requires
            payload_len(self@) <= usize::MAX,
        ensures
            n == payload_len(self@),
        decreases self,
    {
        match self {
            NbtValue::Byte(_) => 1,
            NbtValue::Short(_) => 2,
            NbtValue::Int(_) => 4,
            NbtValue::Long(_) => 8,
            NbtValue::Float(_) => 4,
            NbtValue::Double(_) => 8,
            NbtValue::ByteArray(a) => 4 + a.len(),
            NbtValue::String(s) => 2 + str_byte_len(s.as_str()),
            NbtValue::List(vals) => {
                let ghost vsv = elems_view(vals@);
                let mut total: usize = 5;
                let mut i: usize = 0;
                while i < vals.len()
                    invariant
                        0 <= i <= vals@.len(),
                        vsv == elems_view(vals@),
                        payload_len(SpecValue::List(vsv)) <= usize::MAX,
                        total + crate::model::elems_len(vsv, i as int) == payload_len(
                            SpecValue::List(vsv),
                        ),
                    decreases vals@.len() - i,
                {
                    assert(crate::model::elems_len(vsv, i as int) == payload_len(vsv[i as int])
                        + crate::model::elems_len(vsv, i as int + 1));
                    proof {
                        assert(decreases_to!(*self => self->List_0));
                        assert(decreases_to!(*vals => vals@));
                        assert(decreases_to!(vals@ => vals@[i as int]));
                    }
                    total = total + vals[i].len();
                    i = i + 1;
                }
                total
            },
            NbtValue::Compound(entries) => {
                let mut total: usize = entries_total(entries);
                total + 1
            },
            NbtValue::IntArray(a) => {
                assert(4 * a@.len() + 4 == payload_len(self@));
                4 + 4 * a.len()
            },
        }
    }

    /// Writes the header of this value — its tag id and a 2-byte
    /// big-endian length-prefixed UTF-8 name — to a byte sink.
    pub fn write_header(&self, dst: &mut Vec<u8>, title: &String)
        ensures
            final(dst)@ == old(dst)@ + enc_header(spec_id(self@), title@),
    {
        let id = self.id();
        push_header(id, title, dst);
    }

    /// Writes the payload of this value to a byte sink. Succeeds
    /// exactly when every List in the value is homogeneous, and then
    /// appends exactly the encoding; on failure the sink keeps what was
    /// already written, extended by an unspecified partial prefix.
    #[verifier::loop_isolation(false)]
    #[verifier::rlimit(100)]
    pub fn write(&self, dst: &mut Vec<u8>) -> (r: Result<(), NbtError>)
        ensures
            match r {
                Ok(()) => lists_homogeneous(self@) && final(dst)@ == old(dst)@ + enc(self@),
                Err(e) => e == NbtError::HeterogeneousList && !lists_homogeneous(self@),
            },
        decreases self,
    {
        match self {
            NbtValue::Byte(x) => {
                push_u8(dst, u8_from_i8(*x));
                Ok(())
            },
            NbtValue::Short(x) => {
                push_be2(dst, u16_from_i16(*x));
                Ok(())
            },
            NbtValue::Int(x) => {
                push_be4(dst, u32_from_i32(*x));
                Ok(())
            },
            NbtValue::Long(x) => {
                push_be8(dst, u64_from_i64(*x));
                Ok(())
            },
            NbtValue::Float(b) => {
                push_be4(dst, *b);
                Ok(())
            },
            NbtValue::Double(b) => {
                push_be8(dst, *b);
                Ok(())
            },
            NbtValue::ByteArray(a) => {
                write_byte_array(a, dst);
                proof {
                    assert(self@ == SpecValue::ByteArray(a@));
                    assert(dst@ =~= old(dst)@ + enc(self@));
                }
                Ok(())
            },
            NbtValue::String(s) => {
                write_string(s, dst);
                proof {
                    assert(self@ == SpecValue::String(s@));
                    assert(dst@ =~= old(dst)@ + enc(self@));
                }
                Ok(())
            },
            NbtValue::List(vals) => {
                proof {
                    assert(decreases_to!(*self => self->List_0));
                }
                let r = write_list(vals, dst);
                proof {
                    assert(self@ == SpecValue::List(elems_view(vals@)));
                }
                r
            },
            NbtValue::Compound(entries) => {
                match write_entries(entries, dst) {
                    Ok(()) => {
                        push_u8(dst, 0x00);
                        proof {
                            lemma_entries_hom_iff(entries_view(entries@), 0);
                            assert(dst@ =~= old(dst)@ + enc(self@));
                        }
                        Ok(())
                    },
                    Err(e) => {
                        proof {
                            lemma_entries_hom_iff(entries_view(entries@), 0);
                            assert(!lists_homogeneous(self@));
                        }
                        Err(e)
                    },
                }
            },
            NbtValue::IntArray(a) => {
                write_int_array(a, dst);
                proof {
                    assert(self@ == SpecValue::IntArray(a@));
                    assert(dst@ =~= old(dst)@ + enc(self@));
                }
                Ok(())
            },
        }
    }

    /// Reads any valid header — a tag id and a name — from the bytes at
    /// `pos`. A terminator byte is returned at once with an empty name.
    #[verifier::loop_isolation(false)]
    pub fn read_header(data: &Vec<u8>, pos: usize) -> (r: Result<(u8, String, usize), NbtError>)
        ensures
            match r {
                Ok(t) => dec_header(data@, pos as int) == Ok::<(u8, Seq<char>, int), NbtError>(
                    (t.0, t.1@, t.2 as int),
                ) && pos < t.2 <= data@.len(),
                Err(e) => dec_header(data@, pos as int) == Err::<(u8, Seq<char>, int), NbtError>(e),
            },
    {
        let dlen = data.len();
        let id = match read_u8(data, pos) {
            Ok(b) => b,
            Err(e) => {
                return Err(e);
            },
        };
        if id == 0x00 {
            return Ok((0x00, String::new(), pos + 1));
        }
        let w = match read_u16(data, pos + 1) {
            Ok(w) => w,
            Err(e) => {
                return Err(e);
            },
        };
        let cnt = w as usize;
        if cnt > data.len() - (pos + 3) {
            return Err(NbtError::Truncated);
        }
        let mut bytes: Vec<u8> = Vec::new();
        let mut j: usize = 0;
        while j < cnt
            invariant
                0 <= j <= cnt,
                pos + 3 + cnt <= data@.len(),
                bytes@.len() == j,
                forall|k: int| 0 <= k < j ==> bytes@[k] == data@[pos + 3 + k],
            decreases cnt - j,
        {
            bytes.push(data[pos + 3 + j]);
            j = j + 1;
        }
        assert(bytes@ =~= data@.subrange(pos + 3, pos + 3 + cnt as int));
        match string_from_utf8(bytes) {
            Some(s) => Ok((id, s, pos + 3 + cnt)),
            None => Err(NbtError::InvalidUtf8),
        }
    }

    /// Reads the payload of a value with the given tag id from the
    /// bytes at `pos`, returning the value and the position after it.
    #[verifier::loop_isolation(false)]
    #[verifier::rlimit(100)]
    pub fn from_reader(id: u8, data: &Vec<u8>, pos: usize) -> (r: Result<
        (NbtValue, usize),
        NbtError,
    >)
        ensures
            match r {
                Ok(t) => dec_value(id, data@, pos as int) == Ok::<(SpecValue, int), NbtError>(
                    (t.0@, t.1 as int),
                ) && pos < t.1 <= data@.len(),
                Err(e) => dec_value(id, data@, pos as int) == Err::<(SpecValue, int), NbtError>(e),
            },
        decreases data@.len() - pos,
    {
        let dlen = data.len();
        if id == 0x01 {
            match read_u8(data, pos) {
                Ok(b) => Ok((NbtValue::Byte(i8_from_u8(b)), pos + 1)),
                Err(e) => Err(e),
            }
        } else if id == 0x02 {
            match read_u16(data, pos) {
                Ok(w) => Ok((NbtValue::Short(i16_from_u16(w)), pos + 2)),
                Err(e) => Err(e),
            }
        } else if id == 0x03 {
            match read_u32(data, pos) {
                Ok(w) => Ok((NbtValue::Int(i32_from_u32(w)), pos + 4)),
                Err(e) => Err(e),
            }
        } else if id == 0x04 {
            match read_u64(data, pos) {
                Ok(w) => Ok((NbtValue::Long(i64_from_u64(w)), pos + 8)),
                Err(e) => Err(e),
            }
        } else if id == 0x05 {
            match read_u32(data, pos) {
                Ok(w) => Ok((NbtValue::Float(w), pos + 4)),
                Err(e) => Err(e),
            }
        } else if id == 0x06 {
            match read_u64(data, pos) {
                Ok(w) => Ok((NbtValue::Double(w), pos + 8)),
                Err(e) => Err(e),
            }
        } else if id == 0x07 {
            let w = match read_u32(data, pos) {
                Ok(w) => w,
                Err(e) => {
                    return Err(e);
                },
            };
            if w >= 0x8000_0000 {
                return Err(NbtError::Truncated);
            }
            let cnt = w as usize;
            if cnt > data.len() - (pos + 4) {
                return Err(NbtError::Truncated);
            }
            let mut buf: Vec<i8> = Vec::new();
            let mut j: usize = 0;
            while j < cnt
                invariant
                    0 <= j <= cnt,
                    pos + 4 + cnt <= data@.len(),
                    buf@.len() == j,
                    forall|k: int| 0 <= k < j ==> buf@[k] == i8_of_u8(data@[pos + 4 + k]),
                decreases cnt - j,
            {
                buf.push(i8_from_u8(data[pos + 4 + j]));
                j = j + 1;
            }
            assert(buf@ =~= data@.subrange(pos + 4, pos + 4 + cnt as int).map_values(
                |b: u8| i8_of_u8(b),
            ));
            Ok((NbtValue::ByteArray(buf), pos + 4 + cnt))
        } else if id == 0x08 {
            let w = match read_u16(data, pos) {
                Ok(w) => w,
                Err(e) => {
                    return Err(e);
                },
            };
            let cnt = w as usize;
            if cnt > data.len() - (pos + 2) {
                return Err(NbtError::Truncated);
            }
            let mut bytes: Vec<u8> = Vec::new();
            let mut j: usize = 0;
            while j < cnt
                invariant
                    0 <= j <= cnt,
                    pos + 2 + cnt <= data@.len(),
                    bytes@.len() == j,
                    forall|k: int| 0 <= k < j ==> bytes@[k] == data@[pos + 2 + k],
                decreases cnt - j,
            {
                bytes.push(data[pos + 2 + j]);
                j = j + 1;
            }
            assert(bytes@ =~= data@.subrange(pos + 2, pos + 2 + cnt as int));
            match string_from_utf8(bytes) {
                Some(s) => Ok((NbtValue::String(s), pos + 2 + cnt)),
                None => Err(NbtError::InvalidUtf8),
            }
        } else if id == 0x09 {
            let eid = match read_u8(data, pos) {
                Ok(b) => b,
                Err(e) => {
                    return Err(e);
                },
            };
            let w = match read_u32(data, pos + 1) {
                Ok(w) => w,
                Err(e) => {
                    return Err(e);
                },
            };
            if w >= 0x8000_0000 {
                return Err(NbtError::Truncated);
            }
            let ghost n = w as int;
            let cnt = w as usize;
            let mut elems: Vec<NbtValue> = Vec::new();
            proof {
                assert(elems_view(elems@) =~= Seq::<SpecValue>::empty());
            }
            let mut cur: usize = pos + 5;
            let mut j: usize = 0;
            while j < cnt
                invariant
                    0 <= j <= cnt,
                    pos + 5 <= cur <= data@.len(),
                    n == cnt,
                    eid == data@[pos as int],
                    n == word4(data@, pos as int + 1),
                    pos + 5 <= data@.len(),
                    dec_list(eid, n, data@, pos as int + 5, Seq::empty()) == dec_list(
                        eid,
                        n - j,
                        data@,
                        cur as int,
                        elems_view(elems@),
                    ),
                decreases cnt - j,
            {
                match Self::from_reader(eid, data, cur) {
                    Ok((v, p)) => {
                        proof {
                            assert(elems_view(elems@.push(v)) =~= elems_view(elems@).push(v@));
                        }
                        elems.push(v);
                        cur = p;
                        j = j + 1;
                    },
                    Err(e) => {
                        return Err(e);
                    },
                }
            }
            assert(dec_value(id, data@, pos as int) == Ok::<(SpecValue, int), NbtError>(
                (SpecValue::List(elems_view(elems@)), cur as int),
            ));
            Ok((NbtValue::List(elems), cur))
        } else if id == 0x0a {
            if pos > data.len() {
                return Err(NbtError::Truncated);
            }
            let mut entries: Vec<(String, NbtValue)> = Vec::new();
            proof {
                assert(entries_view(entries@) =~= Seq::<SpecEntry>::empty());
            }
            let mut cur: usize = pos;
            loop
                invariant
                    pos <= cur <= data@.len(),
                    dec_entries(data@, pos as int, Seq::empty()) == dec_entries(
                        data@,
                        cur as int,
                        entries_view(entries@),
                    ),
                decreases data@.len() - cur,
            {
                match Self::read_header(data, cur) {
                    Err(e) => {
                        return Err(e);
                    },
                    Ok((id2, nm, p1)) => {
                        if id2 == 0x00 {
                            return Ok((NbtValue::Compound(entries), p1));
                        }
                        match Self::from_reader(id2, data, p1) {
                            Err(e) => {
                                return Err(e);
                            },
                            Ok((v, p2)) => {
                                let ghost prev_entries = entries_view(entries@);
                                let ghost nmv = nm@;
                                let ghost vv = v@;
                                let _ = insert_entry(&mut entries, nm, v);
                                proof {
                                    assert(entries_view(entries@) == spec_insert(
                                        prev_entries,
                                        nmv,
                                        vv,
                                    ));
                                }
                                cur = p2;
                            },
                        }
                    },
                }
            }
        } else if id == 0x0b {
            let w = match read_u32(data, pos) {
                Ok(w) => w,
                Err(e) => {
                    return Err(e);
                },
            };
            if w >= 0x8000_0000 {
                return Err(NbtError::Truncated);
            }
            let ghost n = w as int;
            let cnt = w as usize;
            let rem = data.len() - (pos + 4);
            if cnt > rem / 4 {
                assert(pos + 4 + 4 * n > data@.len());
                return Err(NbtError::Truncated);
            }
            assert(pos + 4 + 4 * n <= data@.len());
            let mut buf: Vec<i32> = Vec::new();
            let mut cur: usize = pos + 4;
            let mut j: usize = 0;
            while j < cnt
                invariant
                    0 <= j <= cnt,
                    n == cnt,
                    cur as int == pos + 4 + 4 * j,
                    pos + 4 + 4 * cnt <= data@.len(),
                    buf@.len() == j,
                    forall|k: int|
                        0 <= k < j ==> buf@[k] == i32_of_u32(word4(data@, pos + 4 + 4 * k)),
                decreases cnt - j,
            {
                let x = match read_u32(data, cur) {
                    Ok(x) => x,
                    Err(e) => {
                        proof {
                            assert(false);
                        }
                        return Err(e);
                    },
                };
                buf.push(i32_from_u32(x));
                cur = cur + 4;
                j = j + 1;
            }
            assert(buf@ =~= Seq::new(
                n as nat,
                |k: int| i32_of_u32(word4(data@, pos + 4 + 4 * k)),
            ));
            Ok((NbtValue::IntArray(buf), cur))
        } else {
            Err(NbtError::InvalidId)
        }
    }
}


/// Writes one header: a tag id, the 2-byte big-endian length of the
/// name's UTF-8 form (truncated to the field's width), then the name's
/// bytes.
pub(crate) fn push_header(id: u8, title: &String, dst: &mut Vec<u8>)
    ensures
        final(dst)@ == old(dst)@ + enc_header(id, title@),
{
    push_u8(dst, id);
    let n = str_byte_len(title.as_str());
    push_be2(dst, (n % 0x1_0000) as u16);
    let mut bytes = slice_to_vec(title.as_str().as_bytes());
    dst.append(&mut bytes);
    assert(dst@ =~= old(dst)@ + enc_header(id, title@));
}

/// Writes a ByteArray payload: the 4-byte count field (truncated to its
/// width) then each element's byte.
#[verifier::loop_isolation(false)]
fn write_byte_array(a: &Vec<i8>, dst: &mut Vec<u8>)
    ensures
        final(dst)@ == old(dst)@ + crate::ints::be4(crate::model::trunc32(a@.len()))
            + a@.map_values(|e: i8| crate::ints::u8_of_i8(e)),
{
    let alen = a.len();
    proof {
        assert((alen as u64 % 0x1_0000_0000) as u32 == crate::model::trunc32(a@.len()));
    }
    push_be4(dst, (alen as u64 % 0x1_0000_0000) as u32);
    let ghost mid = dst@;
    let ghost mapped = a@.map_values(|e: i8| crate::ints::u8_of_i8(e));
    let mut j: usize = 0;
    while j < a.len()
        invariant
            0 <= j <= a@.len(),
            mapped == a@.map_values(|e: i8| crate::ints::u8_of_i8(e)),
            dst@ =~= mid + mapped.subrange(0, j as int),
        decreases a@.len() - j,
    {
        push_u8(dst, u8_from_i8(a[j]));
        assert(dst@ =~= mid + mapped.subrange(0, j + 1 as int));
        j = j + 1;
    }
    assert(mapped.subrange(0, j as int) =~= mapped);
    assert(dst@ =~= old(dst)@ + crate::ints::be4(crate::model::trunc32(a@.len())) + mapped);
}

/// Writes a String payload: the 2-byte count of UTF-8 bytes (truncated
/// to its width) then the bytes themselves.
fn write_string(s: &String, dst: &mut Vec<u8>)
    ensures
        final(dst)@ == old(dst)@ + crate::ints::be2(crate::model::trunc16(encode_utf8(s@).len()))
            + encode_utf8(s@),
{
    let n = str_byte_len(s.as_str());
    proof {
        assert((n % 0x1_0000) as u16 == crate::model::trunc16(encode_utf8(s@).len()));
    }
    push_be2(dst, (n % 0x1_0000) as u16);
    let mut bytes = slice_to_vec(s.as_str().as_bytes());
    dst.append(&mut bytes);
    assert(dst@ =~= old(dst)@ + crate::ints::be2(crate::model::trunc16(encode_utf8(s@).len()))
        + encode_utf8(s@));
}

/// Writes an IntArray payload: the 4-byte count field (truncated to its
/// width) then each element, big-endian.
#[verifier::loop_isolation(false)]
fn write_int_array(a: &Vec<i32>, dst: &mut Vec<u8>)
    ensures
        final(dst)@ == old(dst)@ + crate::ints::be4(crate::model::trunc32(a@.len()))
            + crate::model::enc_ints(a@, 0),
{
    let alen = a.len();
    proof {
        crate::model::lemma_enc_ints_len(a@, 0);
        assert((alen as u64 % 0x1_0000_0000) as u32 == crate::model::trunc32(a@.len()));
    }
    push_be4(dst, (alen as u64 % 0x1_0000_0000) as u32);
    let ghost mid = dst@;
    let mut j: usize = 0;
    while j < a.len()
        invariant
            0 <= j <= a@.len(),
            dst@ =~= mid + crate::model::enc_ints(a@, 0).subrange(0, 4 * j as int),
            dst@.len() == mid.len() + 4 * j,
        decreases a@.len() - j,
    {
        proof {
            crate::model::lemma_enc_ints_layout(a@, j as int);
        }
        push_be4(dst, u32_from_i32(a[j]));
        assert(dst@ =~= mid + crate::model::enc_ints(a@, 0).subrange(0, 4 * (j + 1) as int));
        j = j + 1;
    }
    assert(crate::model::enc_ints(a@, 0).subrange(0, 4 * j as int) =~= crate::model::enc_ints(
        a@,
        0,
    ));
    assert(dst@ =~= old(dst)@ + crate::ints::be4(crate::model::trunc32(a@.len()))
        + crate::model::enc_ints(a@, 0));
}


/// Writes a List payload: the element tag (that of the first element,
/// or `0x01` for an empty List), the 4-byte count, then each element's
/// payload, aborting when an element's tag differs from the first.
#[verifier::loop_isolation(false)]
#[verifier::rlimit(100)]
fn write_list(vals: &Vec<NbtValue>, dst: &mut Vec<u8>) -> (r: Result<(), NbtError>)
    ensures
        match r {
            Ok(()) => lists_homogeneous(SpecValue::List(elems_view(vals@))) && final(dst)@ == old(
                dst,
            )@ + enc(SpecValue::List(elems_view(vals@))),
            Err(e) => e == NbtError::HeterogeneousList && !lists_homogeneous(
                SpecValue::List(elems_view(vals@)),
            ),
        },
    decreases vals,
{
    let ghost vsv = elems_view(vals@);
    if vals.len() == 0 {
        push_u8(dst, 0x01);
        push_be4(dst, 0);
        assert(dst@ =~= old(dst)@ + enc(SpecValue::List(vsv)));
        Ok(())
    } else {
        let first_id = vals[0].id();
        push_u8(dst, first_id);
        let vlen = vals.len();
        proof {
            assert((vlen as u64 % 0x1_0000_0000) as u32 == crate::model::trunc32(vsv.len()));
        }
        push_be4(dst, (vlen as u64 % 0x1_0000_0000) as u32);
        let ghost base = dst@;
        let mut i: usize = 0;
        while i < vals.len()
            invariant
                0 <= i <= vals@.len(),
                vals@.len() > 0,
                vsv == elems_view(vals@),
                first_id == spec_id(vsv[0]),
                first_id == elem_id(vsv),
                forall|k: int| 0 <= k < i ==> #[trigger] spec_id(vsv[k]) == first_id,
                forall|k: int| 0 <= k < i ==> #[trigger] lists_homogeneous(vsv[k]),
                dst@ + enc_elems(vsv, i as int) == base + enc_elems(vsv, 0),
            decreases vals@.len() - i,
        {
            let vid = vals[i].id();
            if vid != first_id {
                proof {
                    assert(spec_id(vsv[i as int]) != elem_id(vsv));
                    assert(!homogeneous(vsv));
                    assert(!lists_homogeneous(SpecValue::List(vsv)));
                }
                return Err(NbtError::HeterogeneousList);
            }
            let ghost before = dst@;
            proof {
                assert(decreases_to!(*vals => vals@));
                assert(decreases_to!(vals@ => vals@[i as int]));
            }
            match vals[i].write(dst) {
                Ok(()) => {
                    proof {
                        assert(enc_elems(vsv, i as int) == enc(vsv[i as int]) + enc_elems(
                            vsv,
                            i as int + 1,
                        ));
                        assert(dst@ + enc_elems(vsv, i as int + 1) =~= base + enc_elems(vsv, 0))
                            by {
                            assert(before + enc_elems(vsv, i as int) =~= base + enc_elems(vsv, 0));
                            assert(dst@ + enc_elems(vsv, i as int + 1) =~= before + (enc(
                                vsv[i as int],
                            ) + enc_elems(vsv, i as int + 1)));
                        }
                    }
                    i = i + 1;
                },
                Err(e) => {
                    proof {
                        lemma_elems_hom_iff(vsv, 0);
                        assert(!lists_homogeneous(vsv[i as int]));
                        assert(!lists_homogeneous(SpecValue::List(vsv)));
                    }
                    return Err(e);
                },
            }
        }
        proof {
            lemma_elems_hom_iff(vsv, 0);
            assert(homogeneous(vsv));
            assert(lists_homogeneous(SpecValue::List(vsv)));
            assert(dst@ =~= old(dst)@ + enc(SpecValue::List(vsv))) by {
                assert(dst@ + enc_elems(vsv, i as int) == base + enc_elems(vsv, 0));
                assert(enc_elems(vsv, i as int) =~= Seq::<u8>::empty());
                assert(dst@ =~= dst@ + enc_elems(vsv, i as int));
            }
        }
        Ok(())
    }
}

/// The summed encoded entry lengths of a Compound body, without the
/// terminator.
#[verifier::loop_isolation(false)]
pub(crate) fn entries_total(entries: &Vec<(String, NbtValue)>) -> (n: usize)
    requires
        entries_len(entries_view(entries@), 0) <= usize::MAX,
    ensures
        n == entries_len(entries_view(entries@), 0),
    decreases entries,
{
    let ghost esv = entries_view(entries@);
    let mut total: usize = 0;
    let mut i: usize = 0;
    while i < entries.len()
        invariant
            0 <= i <= entries@.len(),
            esv == entries_view(entries@),
            entries_len(esv, 0) <= usize::MAX,
            total + entries_len(esv, i as int) == entries_len(esv, 0),
        decreases entries@.len() - i,
    {
        assert(entries_len(esv, i as int) == 3 + encode_utf8(esv[i as int].name).len()
            + payload_len(esv[i as int].value) + entries_len(esv, i as int + 1));
        let name_bytes = str_byte_len(entries[i].0.as_str());
        proof {
            assert(decreases_to!(*entries => entries@));
            assert(decreases_to!(entries@ => entries@[i as int]));
        }
        let value_len = entries[i].1.len();
        total = total + 3 + name_bytes + value_len;
        i = i + 1;
    }
    total
}

/// Writes every entry of a Compound body — header then payload, in
/// order — without the trailing terminator.
#[verifier::loop_isolation(false)]
pub(crate) fn write_entries(entries: &Vec<(String, NbtValue)>, dst: &mut Vec<u8>) -> (r: Result<
    (),
    NbtError,
>)
    ensures
        match r {
            Ok(()) => (forall|k: int|
                0 <= k < entries@.len() ==> #[trigger] lists_homogeneous(
                    entries_view(entries@)[k].value,
                )) && final(dst)@ == old(dst)@ + enc_entries(entries_view(entries@), 0),
            Err(e) => e == NbtError::HeterogeneousList && !(forall|k: int|
                0 <= k < entries@.len() ==> #[trigger] lists_homogeneous(
                    entries_view(entries@)[k].value,
                )),
        },
    decreases entries,
{
    let ghost esv = entries_view(entries@);
    let mut i: usize = 0;
    while i < entries.len()
        invariant
            0 <= i <= entries@.len(),
            esv == entries_view(entries@),
            forall|k: int| 0 <= k < i ==> #[trigger] lists_homogeneous(esv[k].value),
            dst@ + enc_entries(esv, i as int) == old(dst)@ + enc_entries(esv, 0),
        decreases entries@.len() - i,
    {
        let ghost before = dst@;
        entries[i].1.write_header(dst, &entries[i].0);
        proof {
            assert(decreases_to!(*entries => entries@));
            assert(decreases_to!(entries@ => entries@[i as int]));
        }
        match entries[i].1.write(dst) {
            Ok(()) => {
                proof {
                    assert(enc_entries(esv, i as int) == enc_header(
                        spec_id(esv[i as int].value),
                        esv[i as int].name,
                    ) + enc(esv[i as int].value) + enc_entries(esv, i as int + 1));
                    assert(dst@ + enc_entries(esv, i as int + 1) =~= old(dst)@ + enc_entries(
                        esv,
                        0,
                    )) by {
                        assert(before + enc_entries(esv, i as int) =~= old(dst)@ + enc_entries(
                            esv,
                            0,
                        ));
                        assert(dst@ =~= before + enc_header(
                            spec_id(esv[i as int].value),
                            esv[i as int].name,
                        ) + enc(esv[i as int].value));
                    }
                }
                i = i + 1;
            },
            Err(e) => {
                assert(!lists_homogeneous(esv[i as int].value));
                return Err(e);
            },
        }
    }
    proof {
        assert(enc_entries(esv, i as int) =~= Seq::<u8>::empty());
        assert(dst@ =~= old(dst)@ + enc_entries(esv, 0));
    }
    Ok(())
}

/// Inserts a named value into a Compound body: overwrites in place when
/// the name is already present (returning the previous value), appends
/// otherwise.
#[verifier::loop_isolation(false)]
pub(crate) fn insert_entry(
    entries: &mut Vec<(String, NbtValue)>,
    name: String,
    value: NbtValue,
) -> (r: Option<NbtValue>)
    ensures
        entries_view(final(entries)@) == spec_insert(entries_view(old(entries)@), name@, value@),
        match r {
            Some(prev) => spec_lookup(entries_view(old(entries)@), name@) == Some(prev@),
            None => spec_lookup(entries_view(old(entries)@), name@) is None,
        },
{
    let ghost esv = entries_view(old(entries)@);
    let mut i: usize = 0;
    while i < entries.len()
        invariant
            0 <= i <= entries@.len(),
            esv == entries_view(entries@),
            forall|k: int| 0 <= k < i ==> (#[trigger] esv[k].name) != name@,
        decreases entries@.len() - i,
    {
        if entries[i].0 == name {
            proof {
                assert(esv[i as int].name == name@);
                lemma_spec_find(esv, name@, 0);
                assert(spec_find(esv, name@, 0) == i);
            }
            let prev = entries.remove(i);
            entries.insert(i, (name, value));
            proof {
                assert(entries_view(entries@) =~~= spec_insert(esv, name@, value@));
            }
            return Some(prev.1);
        }
        i = i + 1;
    }
    proof {
        lemma_spec_find(esv, name@, 0);
        assert(spec_find(esv, name@, 0) == -1);
    }
    entries.push((name, value));
    proof {
        assert(entries_view(entries@) =~~= spec_insert(esv, name@, value@));
    }
    None
}

} // verus!
