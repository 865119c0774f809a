use vstd::prelude::*;

verus! {

/// Number of bytes before the first attribute: a 128-byte preamble and the
/// four letters `DICM`.
pub const PREFIX_LENGTH: usize = 132;

/// A byte sequence starts a DICOM file when it holds at least 132 bytes and
/// bytes 128 to 131 spell `DICM`.  The preamble may hold anything.
pub open spec fn spec_detect(bytes: Seq<u8>) -> bool {
    &&& bytes.len() >= 132
    &&& bytes[128] == 0x44
    &&& bytes[129] == 0x49
    &&& bytes[130] == 0x43
    &&& bytes[131] == 0x4D
}

pub fn detect(bytes: &[u8]) -> (found: bool)
    ensures
        found == spec_detect(bytes@),
{
    if bytes.len() < PREFIX_LENGTH {
        return false;
    }
    bytes[128] == 0x44 && bytes[129] == 0x49 && bytes[130] == 0x43 && bytes[131] == 0x4D
}

} // verus!
