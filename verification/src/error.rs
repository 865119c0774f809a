use crate::tag::Tag;
use vstd::prelude::*;

verus! {

/// The ways in which parsing ends without having read a whole file.
#[derive(Debug, PartialEq, Eq)]
pub enum Error {
    /// The preamble and the letters `DICM` are missing, or no
    /// meta-information follows them.
    NotDicom,
    /// The meta-information lacks the attribute with this tag.
    MissingMetaElement(Tag),
    /// A unique identifier of the meta-information is not UTF-8.
    MalformedUid,
    /// The transfer syntax with this unique identifier is not supported.
    UnsupportedTransferSyntax(String),
    /// The input ends before what was to be read from it does.
    InsufficientBytes,
    /// An item header was expected and something else was found, or a
    /// length does not fit the region that encloses it.
    MalformedSequence,
    /// Sequences are nested more deeply than the parser goes.
    TooDeep,
    /// The input ended, or the handler cancelled, with this many bytes
    /// unread.
    BytesRemaining(usize),
}

} // verus!
