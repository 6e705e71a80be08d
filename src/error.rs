use vstd::prelude::*;

verus! {

/// The ways in which a conversion or a decompression can fail.
#[derive(Clone, Copy, Debug, PartialEq, Eq, Structural)]
pub enum CodecError {
    /// A character or a packed digit lies outside the tryte alphabet.
    InvalidAlphabet,
    /// A buffer does not have the size that the schema asks for.
    LengthMismatch,
    /// A compressed buffer ends before all of its parts were read.
    Truncated,
    /// A number or a text does not fit the width of its field.
    NumericOverflow,
}

/// The bytes of a result, or its error.
pub open spec fn seq_result(r: Result<Vec<u8>, CodecError>) -> Result<Seq<u8>, CodecError> {
    match r {
        Ok(v) => Ok(v@),
        Err(e) => Err(e),
    }
}

} // verus!
