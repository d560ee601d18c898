use vstd::prelude::*;

verus! {

/// The three unrecoverable faults of the pipeline: a matched chunk that lacks
/// its space split, a metadata block that does not decode to a valid
/// constraint record, and a character outside its alphabet table.
#[derive(Clone, Copy, Debug, PartialEq, Eq, Structural)]
pub enum PuzzleError {
    /// A matched puzzle chunk has no space between symbols and metadata.
    Tokenization,
    /// A metadata block is missing a group, holds a non-numeric or
    /// out-of-range field, or does not have the expected shape.
    MetadataParse,
    /// A character outside the relevant alphabet table was looked up.
    UnknownSymbol,
}

pub open spec fn message_spec(e: PuzzleError) -> Seq<char> {
    match e {
        PuzzleError::Tokenization => "received an invalidly formatted input chunk"@,
        PuzzleError::MetadataParse => "received an invalidly formatted metadata block"@,
        PuzzleError::UnknownSymbol => "looked up a character outside its alphabet"@,
    }
}

impl PuzzleError {
    /// A descriptive message for reporting the abort, one per variant.
    pub fn message(&self) -> (r: &'static str)
        ensures
            r@ == message_spec(*self),
    {
        match self {
            PuzzleError::Tokenization => "received an invalidly formatted input chunk",
            PuzzleError::MetadataParse => "received an invalidly formatted metadata block",
            PuzzleError::UnknownSymbol => "looked up a character outside its alphabet",
        }
    }
}

} // verus!
