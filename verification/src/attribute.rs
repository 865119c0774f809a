use crate::tag::Tag;
use crate::vr::VR;
use vstd::prelude::*;

verus! {

/// The length that stands for "undefined": the value runs up to a
/// delimiter.
pub const UNDEFINED_LENGTH: u32 = 0xFFFF_FFFF;

/// The header of one attribute: its tag, its value representation where the
/// stream carries one, and the length of its value.
#[derive(Clone, Copy, Debug, PartialEq, Eq)]
pub struct Attribute {
    pub tag: Tag,
    pub vr: Option<VR>,
    pub length: u32,
}

impl Attribute {
    pub open spec fn spec_has_undefined_length(&self) -> bool {
        self.length == 0xFFFF_FFFFu32
    }

    #[verifier::when_used_as_spec(spec_has_undefined_length)]
    pub fn has_undefined_length(&self) -> (b: bool)
        ensures
            b == self.spec_has_undefined_length(),
    {
        self.length == UNDEFINED_LENGTH
    }

    /// Whether the attribute is a sequence by its value representation.
    pub open spec fn spec_is_sequence(&self) -> bool {
        self.vr == Some(VR::SQ)
    }

    #[verifier::when_used_as_spec(spec_is_sequence)]
    pub fn is_sequence(&self) -> (b: bool)
        ensures
            b == self.spec_is_sequence(),
    {
        match self.vr {
            Some(vr) => vr.is_sequence(),
            None => false,
        }
    }
}

} // verus!
