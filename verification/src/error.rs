//! The two error kinds of the codec: format violations and byte-source
//! (I/O style) failures. Rejected insertions are not errors; they are
//! reported through the `Option` channel of `NbtBlob::insert`.

use vstd::prelude::*;

verus! {

/// Everything that can go wrong while encoding or decoding.
///
/// The first four variants are format violations: the data disobeys the
/// tag format. The last two are failures of the byte source or sink:
/// the input ended early, or a compressed stream was not in the expected
/// framing. Callers can tell the two kinds apart with
/// [`NbtError::is_format_violation`].
#[derive(Clone, Copy, Debug, PartialEq, Eq, Structural)]
pub enum NbtError {
    /// A tag id outside `0x01 ..= 0x0b` was met where a value was expected.
    InvalidId,
    /// A document's root value was not a Compound.
    NonCompoundRoot,
    /// A List held elements of more than one tag id.
    HeterogeneousList,
    /// The bytes of a name or of a String payload were not valid UTF-8.
    InvalidUtf8,
    /// The byte source ended before the value was complete.
    Truncated,
    /// A compressed stream could not be read.
    CompressionFailed,
}

impl NbtError {
    /// Whether this error reports data that disobeys the tag format,
    /// as opposed to a failing byte source or sink.
    pub open spec fn spec_is_format_violation(&self) -> bool {
        match self {
            NbtError::InvalidId => true,
            NbtError::NonCompoundRoot => true,
            NbtError::HeterogeneousList => true,
            NbtError::InvalidUtf8 => true,
            NbtError::Truncated => false,
            NbtError::CompressionFailed => false,
        }
    }

    /// The human-readable cause this error carries.
    pub open spec fn spec_message(&self) -> Seq<char> {
        match self {
            NbtError::InvalidId => "invalid value id"@,
            NbtError::NonCompoundRoot => "root value must be a Compound"@,
            NbtError::HeterogeneousList => "list values must be homogeneous"@,
            NbtError::InvalidUtf8 => "string is not UTF-8"@,
            NbtError::Truncated => "byte source ended early"@,
            NbtError::CompressionFailed => "invalid compressed stream"@,
        }
    }

    /// The human-readable cause this error carries.
    pub fn message(&self) -> (r: String)
        ensures
            r@ == self.spec_message(),
    {
        match self {
            NbtError::InvalidId => "invalid value id".to_owned(),
            NbtError::NonCompoundRoot => "root value must be a Compound".to_owned(),
            NbtError::HeterogeneousList => "list values must be homogeneous".to_owned(),
            NbtError::InvalidUtf8 => "string is not UTF-8".to_owned(),
            NbtError::Truncated => "byte source ended early".to_owned(),
            NbtError::CompressionFailed => "invalid compressed stream".to_owned(),
        }
    }

    /// Tells a format violation apart from an I/O style failure.
    #[verifier::when_used_as_spec(spec_is_format_violation)]
    pub fn is_format_violation(&self) -> (r: bool)
        ensures
            r == self.spec_is_format_violation(),
    {
        match self {
            NbtError::InvalidId => true,
            NbtError::NonCompoundRoot => true,
            NbtError::HeterogeneousList => true,
            NbtError::InvalidUtf8 => true,
            NbtError::Truncated => false,
            NbtError::CompressionFailed => false,
        }
    }
}

} // verus!
