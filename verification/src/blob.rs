//! The Named Blob: the unit of persistence and transmission. It owns a
//! title and the entries of its root Compound, supports named insertion
//! and lookup, and reads and writes whole documents, plain or wrapped in
//! gzip or zlib framing.

use vstd::prelude::*;

use vstd::pervasive::unreached;

use crate::compress::{
    gunzip_of, gzip_compress, gzip_decompress, zinflate_of, zlib_compress, zlib_decompress,
};
use crate::decoding::{dec_blob, dec_value};
use crate::error::NbtError;
use crate::model::{
    blob_homogeneous, blob_len, enc_blob, homogeneous, lemma_entries_hom_iff, lemma_spec_find,
    spec_find, spec_id, spec_insert, spec_lookup, SpecBlob, SpecEntry, SpecValue,
};
use crate::strings::str_byte_len;
use crate::value::{
    elems_view, entries_total, entries_view, insert_entry, push_header, write_entries, NbtValue,
};
use crate::ints::push_u8;

verus! {

/// A named document: a title and a root Compound, the only legal root.
/// Built empty, filled through [`NbtBlob::insert`], then written; or
/// read whole from bytes.
#[derive(Debug, PartialEq)]
pub struct NbtBlob {
    title: String,
    entries: Vec<(String, NbtValue)>,
}

impl View for NbtBlob {
    type V = SpecBlob;

    closed spec fn view(&self) -> SpecBlob {
        SpecBlob { title: self.title@, entries: entries_view(self.entries@) }
    }
}

/// An insertion is rejected exactly when the value is a List whose
/// elements do not all carry one tag id.
pub open spec fn insert_rejected(v: SpecValue) -> bool {
    match v {
        SpecValue::List(vs) => !homogeneous(vs),
        _ => false,
    }
}

/// Whether a value is a List with elements of more than one tag id.
#[verifier::loop_isolation(false)]
fn value_rejected(value: &NbtValue) -> (b: bool)
    ensures
        b == insert_rejected(value@),
{
    match value {
        NbtValue::List(vals) => {
            let ghost vsv = elems_view(vals@);
            if vals.len() == 0 {
                assert(homogeneous(vsv));
                return false;
            }
            let first_id = vals[0].id();
            let mut i: usize = 0;
            while i < vals.len()
                invariant
                    0 <= i <= vals@.len(),
                    vals@.len() > 0,
                    vsv == elems_view(vals@),
                    first_id == spec_id(vsv[0]),
                    forall|k: int| 0 <= k < i ==> #[trigger] spec_id(vsv[k]) == first_id,
                decreases vals@.len() - i,
            {
                if vals[i].id() != first_id {
                    assert(spec_id(vsv[i as int]) != crate::model::elem_id(vsv));
                    assert(!homogeneous(vsv));
                    return true;
                }
                i = i + 1;
            }
            assert(homogeneous(vsv));
            false
        },
        _ => false,
    }
}

impl NbtBlob {
    /// Creates a blob with the given title and an empty root Compound.
    pub fn new(title: String) -> (b: NbtBlob)
        ensures
            b@.title == title@,
            b@.entries == Seq::<SpecEntry>::empty(),
    {
        let b = NbtBlob { title, entries: Vec::new() };
        proof {
            assert(entries_view(b.entries@) =~= Seq::<SpecEntry>::empty());
        }
        b
    }

    /// Reads a whole document. The root's tag id must be the Compound
    /// tag; any other root is rejected as a format violation without
    /// reading past the header.
    pub fn from_reader(data: &Vec<u8>) -> (r: Result<NbtBlob, NbtError>)
        ensures
            match r {
                Ok(b) => dec_blob(data@) matches Ok(t) && t.0 == b@.title && t.1 == b@.entries,
                Err(e) => dec_blob(data@) == Err::<(Seq<char>, Seq<SpecEntry>, int), NbtError>(e),
            },
    {
        let (id, title, p) = match NbtValue::read_header(data, 0) {
            Ok(t) => t,
            Err(e) => {
                return Err(e);
            },
        };
        if id != 0x0a {
            return Err(NbtError::NonCompoundRoot);
        }
        match NbtValue::from_reader(0x0a, data, p) {
            Ok((v, _end)) => {
                match v {
                    NbtValue::Compound(entries) => Ok(NbtBlob { title, entries }),
                    _ => {
                        proof {
                            assert(false);
                        }
                        Err(NbtError::NonCompoundRoot)
                    },
                }
            },
            Err(e) => Err(e),
        }
    }

    /// Reads a whole document out of a gzip-compressed byte string.
    pub fn from_gzip(data: &Vec<u8>) -> (r: Result<NbtBlob, NbtError>)
        ensures
            match r {
                Ok(b) => gunzip_of(data@) matches Some(p) && (dec_blob(p) matches Ok(t) && t.0
                    == b@.title && t.1 == b@.entries),
                Err(e) => (gunzip_of(data@) is None && e == NbtError::CompressionFailed) || (
                gunzip_of(data@) matches Some(p) && dec_blob(p) == Err::<
                    (Seq<char>, Seq<SpecEntry>, int),
                    NbtError,
                >(e)),
            },
    {
        match gzip_decompress(data) {
            Ok(plain) => Self::from_reader(&plain),
            Err(e) => Err(e),
        }
    }

    /// Reads a whole document out of a zlib-compressed byte string.
    pub fn from_zlib(data: &Vec<u8>) -> (r: Result<NbtBlob, NbtError>)
        ensures
            match r {
                Ok(b) => zinflate_of(data@) matches Some(p) && (dec_blob(p) matches Ok(t) && t.0
                    == b@.title && t.1 == b@.entries),
                Err(e) => (zinflate_of(data@) is None && e == NbtError::CompressionFailed) || (
                zinflate_of(data@) matches Some(p) && dec_blob(p) == Err::<
                    (Seq<char>, Seq<SpecEntry>, int),
                    NbtError,
                >(e)),
            },
    {
        match zlib_decompress(data) {
            Ok(plain) => Self::from_reader(&plain),
            Err(e) => Err(e),
        }
    }

    /// Writes the whole document: the root header (Compound tag, title),
    /// every entry, and the terminator. Succeeds exactly when every List
    /// in the blob is homogeneous, and then appends exactly the
    /// document's encoding; on failure the sink is left in a partial
    /// state, as the format gives no rollback.
    pub fn write(&self, dst: &mut Vec<u8>) -> (r: Result<(), NbtError>)
        ensures
            match r {
                Ok(()) => blob_homogeneous(self@) && final(dst)@ == old(dst)@ + enc_blob(
                    self@.title,
                    self@.entries,
                ),
                Err(e) => e == NbtError::HeterogeneousList && !blob_homogeneous(self@),
            },
    {
        push_header(0x0a, &self.title, dst);
        match write_entries(&self.entries, dst) {
            Ok(()) => {
                push_u8(dst, 0x00);
                proof {
                    lemma_entries_hom_iff(entries_view(self.entries@), 0);
                    assert(dst@ =~= old(dst)@ + enc_blob(self@.title, self@.entries));
                }
                Ok(())
            },
            Err(e) => {
                proof {
                    lemma_entries_hom_iff(entries_view(self.entries@), 0);
                }
                Err(e)
            },
        }
    }

    /// Writes the document wrapped in gzip framing, succeeding exactly
    /// when the plain write would: the sink then gains one complete
    /// stream that decompresses to exactly the plain encoding, and on
    /// failure the sink is untouched — no truncated stream is left
    /// behind.
    pub fn write_gzip(&self, dst: &mut Vec<u8>) -> (r: Result<(), NbtError>)
        ensures
            match r {
                Ok(()) => blob_homogeneous(self@) && old(dst)@.is_prefix_of(final(dst)@)
                    && gunzip_of(final(dst)@.skip(old(dst)@.len() as int)) == Some(
                    enc_blob(self@.title, self@.entries),
                ),
                Err(e) => e == NbtError::HeterogeneousList && !blob_homogeneous(self@)
                    && final(dst)@ == old(dst)@,
            },
    {
        let mut plain: Vec<u8> = Vec::new();
        match self.write(&mut plain) {
            Ok(()) => {},
            Err(e) => {
                return Err(e);
            },
        }
        let mut c = gzip_compress(&plain);
        let ghost cbytes = c@;
        dst.append(&mut c);
        proof {
            assert(old(dst)@ =~= dst@.subrange(0, old(dst)@.len() as int));
            assert(dst@.skip(old(dst)@.len() as int) =~= cbytes);
        }
        Ok(())
    }

    /// Writes the document wrapped in zlib framing, succeeding exactly
    /// when the plain write would: the sink then gains one complete
    /// stream that decompresses to exactly the plain encoding, and on
    /// failure the sink is untouched — no truncated stream is left
    /// behind.
    pub fn write_zlib(&self, dst: &mut Vec<u8>) -> (r: Result<(), NbtError>)
        ensures
            match r {
                Ok(()) => blob_homogeneous(self@) && old(dst)@.is_prefix_of(final(dst)@)
                    && zinflate_of(final(dst)@.skip(old(dst)@.len() as int)) == Some(
                    enc_blob(self@.title, self@.entries),
                ),
                Err(e) => e == NbtError::HeterogeneousList && !blob_homogeneous(self@)
                    && final(dst)@ == old(dst)@,
            },
    {
        let mut plain: Vec<u8> = Vec::new();
        match self.write(&mut plain) {
            Ok(()) => {},
            Err(e) => {
                return Err(e);
            },
        }
        let mut c = zlib_compress(&plain);
        let ghost cbytes = c@;
        dst.append(&mut c);
        proof {
            assert(old(dst)@ =~= dst@.subrange(0, old(dst)@.len() as int));
            assert(dst@.skip(old(dst)@.len() as int) =~= cbytes);
        }
        Ok(())
    }

    /// Inserts a named value into the root Compound, overwriting any
    /// entry of that name in place and returning what was stored there.
    /// A List with elements of more than one tag id is rejected: nothing
    /// is stored, nothing is returned, and the blob is unchanged —
    /// callers who must tell "rejected" from "no prior value" check the
    /// value first, as the format's one reporting channel serves both.
    pub fn insert(&mut self, name: String, value: NbtValue) -> (r: Option<NbtValue>)
        ensures
            insert_rejected(value@) ==> r is None && *final(self) == *old(self),
            !insert_rejected(value@) ==> {
                &&& final(self)@.title == old(self)@.title
                &&& final(self)@.entries == spec_insert(old(self)@.entries, name@, value@)
                &&& match r {
                    Some(prev) => spec_lookup(old(self)@.entries, name@) == Some(prev@),
                    None => spec_lookup(old(self)@.entries, name@) is None,
                }
            },
    {
        if value_rejected(&value) {
            return None;
        }
        insert_entry(&mut self.entries, name, value)
    }

    /// The uncompressed byte length of the whole document: the tag byte,
    /// the 2-byte title length field, the title's bytes, and the root
    /// Compound's payload.
    pub fn len(&self) -> (n: usize)
        requires
            blob_len(self@) <= usize::MAX,
        ensures
            n == blob_len(self@),
    {
        let t = str_byte_len(self.title.as_str());
        let e = entries_total(&self.entries);
        3 + t + e + 1
    }

    /// The value stored under a name. The lookup is direct and
    /// non-defensive: the name must be present.
    #[verifier::loop_isolation(false)]
    pub fn index(&self, name: &String) -> (r: &NbtValue)
        requires
            spec_lookup(self@.entries, name@) is Some,
        ensures
            spec_lookup(self@.entries, name@) == Some(r@),
    {
        let ghost esv = entries_view(self.entries@);
        let mut i: usize = 0;
        while i < self.entries.len()
            invariant
                0 <= i <= self.entries@.len(),
                forall|k: int| 0 <= k < i ==> (#[trigger] esv[k].name) != name@,
            decreases self.entries@.len() - i,
        {
            if self.entries[i].0 == *name {
                proof {
                    assert(esv[i as int].name == name@);
                    lemma_spec_find(esv, name@, 0);
                    assert(spec_find(esv, name@, 0) == i);
                }
                return &self.entries[i].1;
            }
            i = i + 1;
        }
        proof {
            lemma_spec_find(esv, name@, 0);
            assert(false);
        }
        unreached()
    }

    /// The document's encoded byte length, under the wire-protocol
    /// contract shared by every wire type.
    pub fn proto_len(value: &NbtBlob) -> (n: usize)
        requires
            blob_len(value@) <= usize::MAX,
        ensures
            n == blob_len(value@),
    {
        value.len()
    }

    /// Encodes the document to a byte sink, under the wire-protocol
    /// contract shared by every wire type.
    pub fn proto_encode(value: &NbtBlob, dst: &mut Vec<u8>) -> (r: Result<(), NbtError>)
        ensures
            match r {
                Ok(()) => blob_homogeneous(value@) && final(dst)@ == old(dst)@ + enc_blob(
                    value@.title,
                    value@.entries,
                ),
                Err(e) => e == NbtError::HeterogeneousList && !blob_homogeneous(value@),
            },
    {
        value.write(dst)
    }

    /// Decodes a document from a byte source, under the wire-protocol
    /// contract shared by every wire type.
    pub fn proto_decode(src: &Vec<u8>) -> (r: Result<NbtBlob, NbtError>)
        ensures
            match r {
                Ok(b) => dec_blob(src@) matches Ok(t) && t.0 == b@.title && t.1 == b@.entries,
                Err(e) => dec_blob(src@) == Err::<(Seq<char>, Seq<SpecEntry>, int), NbtError>(e),
            },
    {
        NbtBlob::from_reader(src)
    }
}

} // verus!
