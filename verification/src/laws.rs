//! The laws the codec obeys, proved once and for all: decoding an
//! encoding gives the value back (plain or behind a compression
//! framing), and the length formula names the exact byte count.

use vstd::prelude::*;

use vstd::utf8::{encode_utf8, encode_utf8_decode_utf8, encode_utf8_valid_utf8};

use crate::compress::{gunzip_of, zinflate_of};
use crate::decoding::{dec_blob, dec_entries, dec_header, dec_list, dec_value};
use crate::error::NbtError;
use crate::ints::{
    be2, be4, be8, lemma_be2_read, lemma_be4_read, lemma_be8_read, lemma_reinterpret_round_trip,
    i8_of_u8, u16_of_i16, u32_of_i32, u64_of_i64, u8_of_i8, word4,
};
use crate::model::{
    blob_valid, elem_id, enc, enc_blob, enc_elems, enc_entries, enc_header, enc_ints, homogeneous,
    lemma_enc_ints_layout, lemma_enc_ints_len, lemma_payload_len, lemma_spec_find,
    lemma_valid_elems_iff, lemma_valid_entries_iff, spec_find, spec_id, spec_insert, spec_valid,
    trunc16, trunc32, unique_names, SpecBlob, SpecEntry, SpecValue,
};

verus! {

/// Every payload takes at least one byte.
proof fn lemma_enc_nonempty(v: SpecValue)
    ensures
        enc(v).len() >= 1,
{
    lemma_payload_len(v);
}

/// No value carries the terminator's tag id.
proof fn lemma_spec_id_nonzero(v: SpecValue)
    ensures
        1 <= spec_id(v) <= 0x0b,
{
}

/// Bytes that hold a concatenation hold each part, one after the other.
proof fn lemma_split2(data: Seq<u8>, pos: int, a: Seq<u8>, b: Seq<u8>)
    requires
        0 <= pos,
        pos + a.len() + b.len() <= data.len(),
        data.subrange(pos, pos + a.len() + b.len()) == a + b,
    ensures
        data.subrange(pos, pos + a.len() as int) == a,
        data.subrange(pos + a.len() as int, pos + a.len() + b.len()) == b,
{
    let s = data.subrange(pos, pos + a.len() + b.len());
    assert forall|k: int| 0 <= k < a.len() implies data.subrange(pos, pos + a.len() as int)[k]
        == a[k] by {
        assert(s[k] == (a + b)[k]);
        assert(data[pos + k] == s[k]);
    }
    assert(data.subrange(pos, pos + a.len() as int) =~= a);
    assert forall|k: int|
        0 <= k < b.len() implies data.subrange(pos + a.len() as int, pos + a.len() + b.len())[k]
        == b[k] by {
        assert(s[a.len() + k] == (a + b)[a.len() + k]);
        assert(data[pos + a.len() + k] == s[a.len() + k]);
    }
    assert(data.subrange(pos + a.len() as int, pos + a.len() + b.len()) =~= b);
}

/// The first byte under a known subrange.
proof fn lemma_byte_at(data: Seq<u8>, pos: int, a: Seq<u8>)
    requires
        0 <= pos,
        a.len() >= 1,
        pos + a.len() <= data.len(),
        data.subrange(pos, pos + a.len() as int) == a,
    ensures
        data[pos] == a[0],
{
    assert(data[pos] == data.subrange(pos, pos + a.len() as int)[0]);
}

/// Decoding an encoded List body, element by element, appends exactly
/// the encoded elements to the accumulator.
proof fn lemma_dec_enc_elems(
    vs: Seq<SpecValue>,
    i: int,
    data: Seq<u8>,
    pos: int,
    acc: Seq<SpecValue>,
)
    requires
        0 <= i <= vs.len(),
        vs.len() < 0x8000_0000,
        homogeneous(vs),
        forall|k: int| 0 <= k < vs.len() ==> #[trigger] spec_valid(vs[k]),
        0 <= pos,
        pos + enc_elems(vs, i).len() <= data.len(),
        data.subrange(pos, pos + enc_elems(vs, i).len() as int) == enc_elems(vs, i),
    ensures
        dec_list(elem_id(vs), vs.len() - i, data, pos, acc) == Ok::<(Seq<SpecValue>, int), NbtError>(
            (acc + vs.skip(i), pos + enc_elems(vs, i).len()),
        ),
    decreases vs, vs.len() - i,
{
    if i == vs.len() {
        assert(enc_elems(vs, i) =~= Seq::<u8>::empty());
        assert(acc + vs.skip(i) =~= acc);
    } else {
        let e0 = enc(vs[i]);
        let rest = enc_elems(vs, i + 1);
        assert(enc_elems(vs, i) == e0 + rest);
        assert(data.subrange(pos, pos + e0.len() + rest.len()) == e0 + rest);
        lemma_split2(data, pos, e0, rest);
        lemma_dec_enc_value(vs[i], data, pos);
        lemma_enc_nonempty(vs[i]);
        let p1 = pos + e0.len() as int;
        lemma_dec_enc_elems(vs, i + 1, data, p1, acc.push(vs[i]));
        assert(acc.push(vs[i]) + vs.skip(i + 1) =~= acc + vs.skip(i));
    }
}

/// Decoding an encoded run of Compound entries followed by the
/// terminator yields exactly those entries, given the first `i` already
/// accumulated and names unique throughout.
proof fn lemma_dec_enc_entries(es: Seq<SpecEntry>, i: int, data: Seq<u8>, pos: int)
    requires
        0 <= i <= es.len(),
        unique_names(es),
        forall|k: int|
            0 <= k < es.len() ==> encode_utf8(#[trigger] es[k].name).len() <= 0xFFFF && spec_valid(
                es[k].value,
            ),
        0 <= pos,
        pos + enc_entries(es, i).len() + 1 <= data.len(),
        data.subrange(pos, pos + enc_entries(es, i).len() + 1) == enc_entries(es, i) + seq![0u8],
    ensures
        dec_entries(data, pos, es.take(i)) == Ok::<(Seq<SpecEntry>, int), NbtError>(
            (es, pos + enc_entries(es, i).len() + 1),
        ),
    decreases es, es.len() - i,
{
    if i == es.len() {
        assert(enc_entries(es, i) =~= Seq::<u8>::empty());
        assert(enc_entries(es, i) + seq![0u8] =~= seq![0u8]);
        lemma_byte_at(data, pos, seq![0u8]);
        assert(es.take(i) =~= es);
    } else {
        let id = spec_id(es[i].value);
        let nm = es[i].name;
        let nbytes = encode_utf8(nm);
        let hdr = enc_header(id, nm);
        let e0 = enc(es[i].value);
        let rest = enc_entries(es, i + 1);
        assert(enc_entries(es, i) == hdr + e0 + rest);
        assert(hdr == seq![id] + be2(trunc16(nbytes.len())) + nbytes);
        lemma_spec_id_nonzero(es[i].value);
        // Peel the four parts off the byte string, front to back.
        let tail1 = e0 + (rest + seq![0u8]);
        assert(data.subrange(pos, pos + hdr.len() + tail1.len()) == hdr + tail1) by {
            assert(hdr + e0 + rest + seq![0u8] =~= hdr + tail1);
        }
        lemma_split2(data, pos, hdr, tail1);
        let p1 = pos + hdr.len() as int;
        lemma_split2(data, p1, e0, rest + seq![0u8]);
        let p2 = p1 + e0.len() as int;
        // The header's own three parts.
        let hdr_tail = be2(trunc16(nbytes.len())) + nbytes;
        assert(data.subrange(pos, pos + 1 + hdr_tail.len()) == seq![id] + hdr_tail) by {
            assert(seq![id] + be2(trunc16(nbytes.len())) + nbytes =~= seq![id] + hdr_tail);
        }
        lemma_split2(data, pos, seq![id], hdr_tail);
        lemma_split2(data, pos + 1, be2(trunc16(nbytes.len())), nbytes);
        lemma_byte_at(data, pos, seq![id]);
        lemma_be2_read(data, pos + 1, trunc16(nbytes.len()));
        encode_utf8_valid_utf8(nm);
        encode_utf8_decode_utf8(nm);
        assert(dec_header(data, pos) == Ok::<(u8, Seq<char>, int), NbtError>((id, nm, p1)));
        lemma_dec_enc_value(es[i].value, data, p1);
        lemma_enc_nonempty(es[i].value);
        assert forall|k2: int| 0 <= k2 < i implies (#[trigger] es.take(i)[k2].name) != nm by {
            assert(es[k2].name != es[i].name);
        }
        lemma_spec_find(es.take(i), nm, 0);
        assert(spec_find(es.take(i), nm, 0) == -1);
        assert(spec_insert(es.take(i), nm, es[i].value) =~= es.take(i + 1));
        lemma_dec_enc_entries(es, i + 1, data, p2);
    }
}

/// Decoding an encoded payload at its position in a byte string gives
/// back exactly the encoded value, ending right after its bytes.
#[verifier::rlimit(100)]
pub proof fn lemma_dec_enc_value(v: SpecValue, data: Seq<u8>, pos: int)
    requires
        spec_valid(v),
        0 <= pos,
        pos + enc(v).len() <= data.len(),
        data.subrange(pos, pos + enc(v).len() as int) == enc(v),
    ensures
        dec_value(spec_id(v), data, pos) == Ok::<(SpecValue, int), NbtError>(
            (v, pos + enc(v).len()),
        ),
    decreases v, 0int,
{
    lemma_reinterpret_round_trip();
    match v {
        SpecValue::Byte(x) => {
            lemma_byte_at(data, pos, enc(v));
        },
        SpecValue::Short(x) => {
            lemma_be2_read(data, pos, u16_of_i16(x));
        },
        SpecValue::Int(x) => {
            lemma_be4_read(data, pos, u32_of_i32(x));
        },
        SpecValue::Long(x) => {
            lemma_be8_read(data, pos, u64_of_i64(x));
        },
        SpecValue::Float(b) => {
            lemma_be4_read(data, pos, b);
        },
        SpecValue::Double(b) => {
            lemma_be8_read(data, pos, b);
        },
        SpecValue::ByteArray(a) => {
            let n = a.len() as int;
            assert(trunc32(a.len()) == n);
            let mapped = a.map_values(|e: i8| u8_of_i8(e));
            assert(data.subrange(pos, pos + 4 + mapped.len()) == be4(trunc32(a.len())) + mapped);
            lemma_split2(data, pos, be4(trunc32(a.len())), mapped);
            lemma_be4_read(data, pos, trunc32(a.len()));
            assert(data.subrange(pos + 4, pos + 4 + n).map_values(|b: u8| i8_of_u8(b)) =~= a);
        },
        SpecValue::String(s) => {
            let nbytes = encode_utf8(s);
            assert(trunc16(nbytes.len()) == nbytes.len());
            assert(data.subrange(pos, pos + 2 + nbytes.len()) == be2(trunc16(nbytes.len()))
                + nbytes);
            lemma_split2(data, pos, be2(trunc16(nbytes.len())), nbytes);
            lemma_be2_read(data, pos, trunc16(nbytes.len()));
            encode_utf8_valid_utf8(s);
            encode_utf8_decode_utf8(s);
        },
        SpecValue::List(vs) => {
            let n = vs.len() as int;
            assert(trunc32(vs.len()) == n);
            let body = enc_elems(vs, 0);
            let tail = be4(trunc32(vs.len())) + body;
            assert(data.subrange(pos, pos + 1 + tail.len()) == seq![elem_id(vs)] + tail) by {
                assert(seq![elem_id(vs)] + be4(trunc32(vs.len())) + body =~= seq![elem_id(vs)]
                    + tail);
            }
            lemma_split2(data, pos, seq![elem_id(vs)], tail);
            lemma_split2(data, pos + 1, be4(trunc32(vs.len())), body);
            lemma_byte_at(data, pos, seq![elem_id(vs)]);
            lemma_be4_read(data, pos + 1, trunc32(vs.len()));
            lemma_valid_elems_iff(vs, 0);
            lemma_dec_enc_elems(vs, 0, data, pos + 5, Seq::empty());
            assert(Seq::<SpecValue>::empty() + vs.skip(0) =~= vs);
        },
        SpecValue::Compound(es) => {
            let body = enc_entries(es, 0);
            assert(enc(v) == body + seq![0u8]);
            lemma_valid_entries_iff(es, 0);
            lemma_dec_enc_entries(es, 0, data, pos);
            assert(es.take(0) =~= Seq::<SpecEntry>::empty());
        },
        SpecValue::IntArray(a) => {
            let n = a.len() as int;
            assert(trunc32(a.len()) == n);
            lemma_enc_ints_len(a, 0);
            let body = enc_ints(a, 0);
            assert(data.subrange(pos, pos + 4 + body.len()) == be4(trunc32(a.len())) + body);
            lemma_split2(data, pos, be4(trunc32(a.len())), body);
            lemma_be4_read(data, pos, trunc32(a.len()));
            assert forall|k: int| 0 <= k < n implies i32_of_u32_at(data, pos + 4 + 4 * k)
                == a[k] by {
                lemma_enc_ints_layout(a, k);
                assert(data.subrange(pos + 4, pos + 4 + 4 * n).subrange(4 * k, 4 * k + 4) == be4(
                    u32_of_i32(a[k]),
                ));
                assert(data.subrange(pos + 4 + 4 * k, pos + 4 + 4 * k + 4) =~= data.subrange(
                    pos + 4,
                    pos + 4 + 4 * n,
                ).subrange(4 * k, 4 * k + 4));
                lemma_be4_read(data, pos + 4 + 4 * k, u32_of_i32(a[k]));
            }
            assert(Seq::new(n as nat, |k: int| crate::ints::i32_of_u32(word4(data, pos + 4 + 4 * k)))
                =~= a);
        },
    }
}

/// The signed reading of the 4-byte big-endian word at a position.
spec fn i32_of_u32_at(data: Seq<u8>, p: int) -> i32 {
    crate::ints::i32_of_u32(word4(data, p))
}

/// The whole-document length oracle: the documented formula — tag byte,
/// 2-byte title length field, title bytes, root payload — names exactly
/// the byte count the whole-document write produces.
pub proof fn lemma_blob_len(title: Seq<char>, es: Seq<SpecEntry>)
    ensures
        enc_blob(title, es).len() == crate::model::blob_len(SpecBlob { title: title, entries: es }),
{
    lemma_payload_len(SpecValue::Compound(es));
}

/// The round trip: a well-formed document decodes from its own encoding
/// back to exactly its title and entries, consuming every byte.
pub proof fn lemma_round_trip(title: Seq<char>, es: Seq<SpecEntry>)
    requires
        blob_valid(SpecBlob { title: title, entries: es }),
    ensures
        dec_blob(enc_blob(title, es)) == Ok::<(Seq<char>, Seq<SpecEntry>, int), NbtError>(
            (title, es, enc_blob(title, es).len() as int),
        ),
{
    let data = enc_blob(title, es);
    let tbytes = encode_utf8(title);
    assert(trunc16(tbytes.len()) == tbytes.len());
    let hdr = enc_header(0x0a, title);
    assert(hdr == seq![0x0au8] + be2(trunc16(tbytes.len())) + tbytes);
    let tail = enc_entries(es, 0) + seq![0u8];
    assert(data == hdr + enc_entries(es, 0) + seq![0u8]);
    assert(data.subrange(0, hdr.len() + tail.len() as int) == hdr + tail) by {
        assert(data.subrange(0, data.len() as int) =~= data);
        assert(hdr + enc_entries(es, 0) + seq![0u8] =~= hdr + tail);
    }
    lemma_split2(data, 0, hdr, tail);
    let hdr_tail = be2(trunc16(tbytes.len())) + tbytes;
    assert(data.subrange(0, 1 + hdr_tail.len() as int) == seq![0x0au8] + hdr_tail) by {
        assert(seq![0x0au8] + be2(trunc16(tbytes.len())) + tbytes =~= seq![0x0au8] + hdr_tail);
    }
    lemma_split2(data, 0, seq![0x0au8], hdr_tail);
    lemma_split2(data, 1, be2(trunc16(tbytes.len())), tbytes);
    lemma_byte_at(data, 0, seq![0x0au8]);
    lemma_be2_read(data, 1, trunc16(tbytes.len()));
    encode_utf8_valid_utf8(title);
    encode_utf8_decode_utf8(title);
    let p0 = 3 + tbytes.len() as int;
    assert(dec_header(data, 0) == Ok::<(u8, Seq<char>, int), NbtError>((0x0a, title, p0)));
    lemma_valid_entries_iff(es, 0);
    lemma_dec_enc_entries(es, 0, data, p0);
    assert(es.take(0) =~= Seq::<SpecEntry>::empty());
}

/// The compressed round trip: bytes that decompress to a well-formed
/// document's encoding — such as those the compressed write routines
/// produce — decode through the matching compressed reading back to
/// exactly that document.
pub proof fn lemma_compressed_round_trip(title: Seq<char>, es: Seq<SpecEntry>, z: Seq<u8>)
    requires
        blob_valid(SpecBlob { title: title, entries: es }),
    ensures
        gunzip_of(z) == Some(enc_blob(title, es)) ==> (gunzip_of(z) matches Some(p) && dec_blob(p)
            matches Ok(t) && t.0 == title && t.1 == es),
        zinflate_of(z) == Some(enc_blob(title, es)) ==> (zinflate_of(z) matches Some(p) && dec_blob(
            p,
        ) matches Ok(t) && t.0 == title && t.1 == es),
{
    lemma_round_trip(title, es);
}

} // verus!
