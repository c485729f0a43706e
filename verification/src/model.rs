//! The mathematical model of the format: an abstract tagged value, the
//! exact byte string each value encodes to, the documented payload-length
//! formula, the well-formedness conditions the format asks of a value,
//! and the insertion discipline of Compound entries.

use vstd::prelude::*;

use vstd::utf8::encode_utf8;

use crate::ints::{be2, be4, be8, u16_of_i16, u32_of_i32, u64_of_i64, u8_of_i8};

verus! {

/// The abstract form of a tagged value: sequences in place of vectors,
/// character sequences in place of strings, and the two floating-point
/// cases carried as their IEEE-754 bit patterns.
pub enum SpecValue {
    Byte(i8),
    Short(i16),
    Int(i32),
    Long(i64),
    Float(u32),
    Double(u64),
    ByteArray(Seq<i8>),
    String(Seq<char>),
    List(Seq<SpecValue>),
    Compound(Seq<SpecEntry>),
    IntArray(Seq<i32>),
}

/// One named entry of a Compound.
pub struct SpecEntry {
    pub name: Seq<char>,
    pub value: SpecValue,
}

/// The one-byte tag id of a value, `0x01` through `0x0b`.
pub open spec fn spec_id(v: SpecValue) -> u8 {
    match v {
        SpecValue::Byte(_) => 0x01,
        SpecValue::Short(_) => 0x02,
        SpecValue::Int(_) => 0x03,
        SpecValue::Long(_) => 0x04,
        SpecValue::Float(_) => 0x05,
        SpecValue::Double(_) => 0x06,
        SpecValue::ByteArray(_) => 0x07,
        SpecValue::String(_) => 0x08,
        SpecValue::List(_) => 0x09,
        SpecValue::Compound(_) => 0x0a,
        SpecValue::IntArray(_) => 0x0b,
    }
}

/// The element tag id a List declares: that of its first element, or
/// `0x01` by convention for an empty List.
pub open spec fn elem_id(vs: Seq<SpecValue>) -> u8 {
    if vs.len() == 0 {
        0x01
    } else {
        spec_id(vs[0])
    }
}

/// The low 16 bits of a length, as the 2-byte length fields store it.
pub open spec fn trunc16(n: nat) -> u16 {
    (n % 0x1_0000) as u16
}

/// The low 32 bits of a length, as the 4-byte length fields store it.
pub open spec fn trunc32(n: nat) -> u32 {
    (n % 0x1_0000_0000) as u32
}

/// The header preceding a named value: tag id, 2-byte big-endian length
/// of the UTF-8 name, then the name's bytes.
pub open spec fn enc_header(id: u8, name: Seq<char>) -> Seq<u8> {
    seq![id] + be2(trunc16(encode_utf8(name).len())) + encode_utf8(name)
}

/// The payload bytes of a value, exactly as the write routine produces
/// them (big-endian throughout; length fields truncated to their width).
pub open spec fn enc(v: SpecValue) -> Seq<u8>
    decreases v, 0int,
{
    match v {
        SpecValue::Byte(x) => seq![u8_of_i8(x)],
        SpecValue::Short(x) => be2(u16_of_i16(x)),
        SpecValue::Int(x) => be4(u32_of_i32(x)),
        SpecValue::Long(x) => be8(u64_of_i64(x)),
        SpecValue::Float(b) => be4(b),
        SpecValue::Double(b) => be8(b),
        SpecValue::ByteArray(a) => be4(trunc32(a.len())) + a.map_values(|e: i8| u8_of_i8(e)),
        SpecValue::String(s) => be2(trunc16(encode_utf8(s).len())) + encode_utf8(s),
        SpecValue::List(vs) => seq![elem_id(vs)] + be4(trunc32(vs.len())) + enc_elems(vs, 0),
        SpecValue::Compound(es) => enc_entries(es, 0) + seq![0u8],
        SpecValue::IntArray(a) => be4(trunc32(a.len())) + enc_ints(a, 0),
    }
}

/// The concatenated payloads of a List's elements from index `i` on.
pub open spec fn enc_elems(vs: Seq<SpecValue>, i: int) -> Seq<u8>
    decreases vs, vs.len() - i,
{
    if 0 <= i < vs.len() {
        enc(vs[i]) + enc_elems(vs, i + 1)
    } else {
        Seq::empty()
    }
}

/// The concatenated header-plus-payload bytes of a Compound's entries
/// from index `i` on, without the trailing terminator.
pub open spec fn enc_entries(es: Seq<SpecEntry>, i: int) -> Seq<u8>
    decreases es, es.len() - i,
{
    if 0 <= i < es.len() {
        enc_header(spec_id(es[i].value), es[i].name) + enc(es[i].value) + enc_entries(es, i + 1)
    } else {
        Seq::empty()
    }
}

/// The concatenated 4-byte big-endian elements of an IntArray from
/// index `i` on.
pub open spec fn enc_ints(a: Seq<i32>, i: int) -> Seq<u8>
    decreases a.len() - i,
{
    if 0 <= i < a.len() {
        be4(u32_of_i32(a[i])) + enc_ints(a, i + 1)
    } else {
        Seq::empty()
    }
}

// ---------------------------------------------------------------------
// The documented payload-length formula.

/// The payload byte length of a value: scalars are fixed-width, arrays
/// are a 4-byte count plus their elements, a String is a 2-byte count
/// plus its UTF-8 bytes, a List is a tag byte and 4-byte count plus its
/// elements, and a Compound is its entries (3 header bytes plus name
/// plus payload each) plus the 1-byte terminator.
pub open spec fn payload_len(v: SpecValue) -> nat
    decreases v, 0int,
{
    match v {
        SpecValue::Byte(_) => 1,
        SpecValue::Short(_) => 2,
        SpecValue::Int(_) => 4,
        SpecValue::Long(_) => 8,
        SpecValue::Float(_) => 4,
        SpecValue::Double(_) => 8,
        SpecValue::ByteArray(a) => 4 + a.len(),
        SpecValue::String(s) => 2 + encode_utf8(s).len(),
        SpecValue::List(vs) => 5 + elems_len(vs, 0),
        SpecValue::Compound(es) => entries_len(es, 0) + 1,
        SpecValue::IntArray(a) => 4 + 4 * a.len(),
    }
}

/// The summed payload lengths of a List's elements from index `i` on.
pub open spec fn elems_len(vs: Seq<SpecValue>, i: int) -> nat
    decreases vs, vs.len() - i,
{
    if 0 <= i < vs.len() {
        payload_len(vs[i]) + elems_len(vs, i + 1)
    } else {
        0
    }
}

/// The summed entry lengths of a Compound from index `i` on, without
/// the terminator.
pub open spec fn entries_len(es: Seq<SpecEntry>, i: int) -> nat
    decreases es, es.len() - i,
{
    if 0 <= i < es.len() {
        3 + encode_utf8(es[i].name).len() + payload_len(es[i].value) + entries_len(es, i + 1)
    } else {
        0
    }
}

/// The length oracle: the payload-length formula agrees exactly with
/// the byte string the encoding produces.
pub proof fn lemma_payload_len(v: SpecValue)
    ensures
        enc(v).len() == payload_len(v),
    decreases v, 0int,
{
    match v {
        SpecValue::List(vs) => {
            lemma_elems_len(vs, 0);
        },
        SpecValue::Compound(es) => {
            lemma_entries_len(es, 0);
        },
        SpecValue::IntArray(a) => {
            lemma_enc_ints_len(a, 0);
        },
        _ => {},
    }
}

proof fn lemma_elems_len(vs: Seq<SpecValue>, i: int)
    ensures
        enc_elems(vs, i).len() == elems_len(vs, i),
    decreases vs, vs.len() - i,
{
    if 0 <= i < vs.len() {
        lemma_payload_len(vs[i]);
        lemma_elems_len(vs, i + 1);
    }
}

proof fn lemma_entries_len(es: Seq<SpecEntry>, i: int)
    ensures
        enc_entries(es, i).len() == entries_len(es, i),
    decreases es, es.len() - i,
{
    if 0 <= i < es.len() {
        lemma_payload_len(es[i].value);
        lemma_entries_len(es, i + 1);
    }
}

/// The encoded IntArray body from `i` on holds 4 bytes per element.
pub proof fn lemma_enc_ints_len(a: Seq<i32>, i: int)
    requires
        0 <= i <= a.len(),
    ensures
        enc_ints(a, i).len() == 4 * (a.len() - i),
    decreases a.len() - i,
{
    if i < a.len() {
        lemma_enc_ints_len(a, i + 1);
    }
}

proof fn lemma_enc_ints_index(a: Seq<i32>, i: int, j: int)
    requires
        0 <= i <= j < a.len(),
    ensures
        enc_ints(a, i).subrange(4 * (j - i), 4 * (j - i) + 4) == be4(u32_of_i32(a[j])),
    decreases j - i,
{
    lemma_enc_ints_len(a, i);
    lemma_enc_ints_len(a, i + 1);
    if i == j {
        assert(enc_ints(a, i).subrange(0, 4) =~= be4(u32_of_i32(a[i])));
    } else {
        lemma_enc_ints_index(a, i + 1, j);
        assert(enc_ints(a, i).subrange(4 * (j - i), 4 * (j - i) + 4) =~= enc_ints(
            a,
            i + 1,
        ).subrange(4 * (j - i - 1), 4 * (j - i - 1) + 4));
    }
}

/// Where each element of an IntArray body sits: element `j` occupies
/// bytes `4j` through `4j + 4`.
pub proof fn lemma_enc_ints_layout(a: Seq<i32>, j: int)
    requires
        0 <= j < a.len(),
    ensures
        enc_ints(a, 0).len() == 4 * a.len(),
        enc_ints(a, 0).subrange(4 * j, 4 * j + 4) == be4(u32_of_i32(a[j])),
{
    lemma_enc_ints_len(a, 0);
    lemma_enc_ints_index(a, 0, j);
}

// ---------------------------------------------------------------------
// Well-formedness.

/// All elements of a List carry the List's declared element tag id.
pub open spec fn homogeneous(vs: Seq<SpecValue>) -> bool {
    forall|k: int| 0 <= k < vs.len() ==> #[trigger] spec_id(vs[k]) == elem_id(vs)
}

/// No two entries of a Compound share a name.
pub open spec fn unique_names(es: Seq<SpecEntry>) -> bool {
    forall|j: int, k: int| 0 <= j < k < es.len() ==> es[j].name != es[k].name
}

/// Every List in the value, at any depth, is homogeneous. This is the
/// exact condition under which the write routine succeeds.
pub open spec fn lists_homogeneous(v: SpecValue) -> bool
    decreases v, 0int,
{
    match v {
        SpecValue::List(vs) => homogeneous(vs) && elems_lists_homogeneous(vs, 0),
        SpecValue::Compound(es) => entries_lists_homogeneous(es, 0),
        _ => true,
    }
}

pub open spec fn elems_lists_homogeneous(vs: Seq<SpecValue>, i: int) -> bool
    decreases vs, vs.len() - i,
{
    if 0 <= i < vs.len() {
        lists_homogeneous(vs[i]) && elems_lists_homogeneous(vs, i + 1)
    } else {
        true
    }
}

pub open spec fn entries_lists_homogeneous(es: Seq<SpecEntry>, i: int) -> bool
    decreases es, es.len() - i,
{
    if 0 <= i < es.len() {
        lists_homogeneous(es[i].value) && entries_lists_homogeneous(es, i + 1)
    } else {
        true
    }
}

/// [`elems_lists_homogeneous`] says exactly that every element from `i`
/// on is deeply homogeneous.
pub proof fn lemma_elems_hom_iff(vs: Seq<SpecValue>, i: int)
    requires
        0 <= i <= vs.len(),
    ensures
        elems_lists_homogeneous(vs, i) <==> (forall|k: int|
            i <= k < vs.len() ==> #[trigger] lists_homogeneous(vs[k])),
    decreases vs.len() - i,
{
    if i < vs.len() {
        lemma_elems_hom_iff(vs, i + 1);
        if elems_lists_homogeneous(vs, i) {
            assert forall|k: int| i <= k < vs.len() implies #[trigger] lists_homogeneous(
                vs[k],
            ) by {
                if k > i {
                    assert(lists_homogeneous(vs[k]));
                }
            }
        }
        if forall|k: int| i <= k < vs.len() ==> #[trigger] lists_homogeneous(vs[k]) {
            assert(lists_homogeneous(vs[i]));
            assert(elems_lists_homogeneous(vs, i + 1));
        }
    }
}

/// [`entries_lists_homogeneous`] says exactly that every entry's value
/// from `i` on is deeply homogeneous.
pub proof fn lemma_entries_hom_iff(es: Seq<SpecEntry>, i: int)
    requires
        0 <= i <= es.len(),
    ensures
        entries_lists_homogeneous(es, i) <==> (forall|k: int|
            i <= k < es.len() ==> #[trigger] lists_homogeneous(es[k].value)),
    decreases es.len() - i,
{
    if i < es.len() {
        lemma_entries_hom_iff(es, i + 1);
        if entries_lists_homogeneous(es, i) {
            assert forall|k: int| i <= k < es.len() implies #[trigger] lists_homogeneous(
                es[k].value,
            ) by {
                if k > i {
                    assert(lists_homogeneous(es[k].value));
                }
            }
        }
        if forall|k: int| i <= k < es.len() ==> #[trigger] lists_homogeneous(es[k].value) {
            assert(lists_homogeneous(es[i].value));
            assert(entries_lists_homogeneous(es, i + 1));
        }
    }
}

/// A value the format can represent losslessly: lists homogeneous,
/// Compound names unique, every name and String at most 65535 UTF-8
/// bytes, every array and List count below 2^31.
pub open spec fn spec_valid(v: SpecValue) -> bool
    decreases v, 0int,
{
    match v {
        SpecValue::Byte(_) => true,
        SpecValue::Short(_) => true,
        SpecValue::Int(_) => true,
        SpecValue::Long(_) => true,
        SpecValue::Float(_) => true,
        SpecValue::Double(_) => true,
        SpecValue::ByteArray(a) => a.len() < 0x8000_0000,
        SpecValue::String(s) => encode_utf8(s).len() <= 0xFFFF,
        SpecValue::List(vs) => vs.len() < 0x8000_0000 && homogeneous(vs) && valid_elems(vs, 0),
        SpecValue::Compound(es) => unique_names(es) && valid_entries(es, 0),
        SpecValue::IntArray(a) => a.len() < 0x8000_0000,
    }
}

pub open spec fn valid_elems(vs: Seq<SpecValue>, i: int) -> bool
    decreases vs, vs.len() - i,
{
    if 0 <= i < vs.len() {
        spec_valid(vs[i]) && valid_elems(vs, i + 1)
    } else {
        true
    }
}

pub open spec fn valid_entries(es: Seq<SpecEntry>, i: int) -> bool
    decreases es, es.len() - i,
{
    if 0 <= i < es.len() {
        encode_utf8(es[i].name).len() <= 0xFFFF && spec_valid(es[i].value) && valid_entries(
            es,
            i + 1,
        )
    } else {
        true
    }
}

/// [`valid_elems`] says exactly that every element from `i` on is valid.
pub proof fn lemma_valid_elems_iff(vs: Seq<SpecValue>, i: int)
    requires
        0 <= i <= vs.len(),
    ensures
        valid_elems(vs, i) <==> (forall|k: int|
            i <= k < vs.len() ==> #[trigger] spec_valid(vs[k])),
    decreases vs.len() - i,
{
    if i < vs.len() {
        lemma_valid_elems_iff(vs, i + 1);
        if valid_elems(vs, i) {
            assert forall|k: int| i <= k < vs.len() implies #[trigger] spec_valid(vs[k]) by {
                if k > i {
                    assert(spec_valid(vs[k]));
                }
            }
        }
        if forall|k: int| i <= k < vs.len() ==> #[trigger] spec_valid(vs[k]) {
            assert(spec_valid(vs[i]));
            assert(valid_elems(vs, i + 1));
        }
    }
}

/// [`valid_entries`] says exactly that every entry from `i` on has a
/// bounded name and a valid value.
pub proof fn lemma_valid_entries_iff(es: Seq<SpecEntry>, i: int)
    requires
        0 <= i <= es.len(),
    ensures
        valid_entries(es, i) <==> (forall|k: int|
            i <= k < es.len() ==> encode_utf8(#[trigger] es[k].name).len() <= 0xFFFF && spec_valid(
                es[k].value,
            )),
    decreases es.len() - i,
{
    if i < es.len() {
        lemma_valid_entries_iff(es, i + 1);
        if valid_entries(es, i) {
            assert forall|k: int|
                i <= k < es.len() implies encode_utf8(#[trigger] es[k].name).len() <= 0xFFFF
                && spec_valid(es[k].value) by {
                if k > i {
                    assert(encode_utf8(es[k].name).len() <= 0xFFFF && spec_valid(es[k].value));
                }
            }
        }
        if forall|k: int|
            i <= k < es.len() ==> encode_utf8(#[trigger] es[k].name).len() <= 0xFFFF && spec_valid(
                es[k].value,
            ) {
            assert(encode_utf8(es[i].name).len() <= 0xFFFF && spec_valid(es[i].value));
            assert(valid_entries(es, i + 1));
        }
    }
}

// ---------------------------------------------------------------------
// Compound entries as an insertion-ordered association sequence.

/// The index of the entry named `name`, searching from `i` on, or -1.
pub open spec fn spec_find(es: Seq<SpecEntry>, name: Seq<char>, i: int) -> int
    decreases es.len() - i,
{
    if i < 0 || i >= es.len() {
        -1
    } else if es[i].name == name {
        i
    } else {
        spec_find(es, name, i + 1)
    }
}

/// Insertion overwrites in place when the name is present, else appends.
pub open spec fn spec_insert(es: Seq<SpecEntry>, name: Seq<char>, v: SpecValue) -> Seq<SpecEntry> {
    let i = spec_find(es, name, 0);
    if i < 0 {
        es.push(SpecEntry { name: name, value: v })
    } else {
        es.update(i, SpecEntry { name: name, value: v })
    }
}

/// The value stored under `name`, if any.
pub open spec fn spec_lookup(es: Seq<SpecEntry>, name: Seq<char>) -> Option<SpecValue> {
    let i = spec_find(es, name, 0);
    if i < 0 {
        Option::None
    } else {
        Option::Some(es[i].value)
    }
}

/// What [`spec_find`] returns: -1 exactly when the name is absent from
/// `i` on, and otherwise the first index at or after `i` that holds it.
pub proof fn lemma_spec_find(es: Seq<SpecEntry>, name: Seq<char>, i: int)
    requires
        0 <= i <= es.len(),
    ensures
        spec_find(es, name, i) == -1 <==> (forall|k: int|
            i <= k < es.len() ==> (#[trigger] es[k].name) != name),
        spec_find(es, name, i) != -1 ==> {
            let j = spec_find(es, name, i);
            &&& i <= j < es.len()
            &&& es[j].name == name
            &&& forall|k: int| i <= k < j ==> (#[trigger] es[k].name) != name
        },
    decreases es.len() - i,
{
    if i < es.len() && es[i].name != name {
        lemma_spec_find(es, name, i + 1);
    }
}

// ---------------------------------------------------------------------
// The whole document.

/// The abstract form of a Named Blob: a title and the root Compound's
/// entries.
pub struct SpecBlob {
    pub title: Seq<char>,
    pub entries: Seq<SpecEntry>,
}

/// The byte string of a whole document: the root header (Compound tag,
/// title), the entries, and the terminator.
pub open spec fn enc_blob(title: Seq<char>, es: Seq<SpecEntry>) -> Seq<u8> {
    enc_header(0x0a, title) + enc_entries(es, 0) + seq![0u8]
}

/// The documented whole-document length formula: 1 tag byte, the 2-byte
/// title length field, the title's UTF-8 bytes, and the root payload.
pub open spec fn blob_len(b: SpecBlob) -> nat {
    3 + encode_utf8(b.title).len() + payload_len(SpecValue::Compound(b.entries))
}

/// A blob the format can represent losslessly.
pub open spec fn blob_valid(b: SpecBlob) -> bool {
    encode_utf8(b.title).len() <= 0xFFFF && spec_valid(SpecValue::Compound(b.entries))
}

/// Every List anywhere under the blob's entries is homogeneous: the
/// exact condition under which the whole-document write succeeds.
pub open spec fn blob_homogeneous(b: SpecBlob) -> bool {
    lists_homogeneous(SpecValue::Compound(b.entries))
}

} // verus!
