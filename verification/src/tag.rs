use crate::encoding::Encoding;
use crate::encoding::InsufficientBytes;
use vstd::prelude::*;

verus! {

/// Group number of the tags that delimit items and sequences.
pub const SEQUENCE_CONTROL_GROUP: u16 = 0xFFFE;

/// Element number of the tag that starts an item.
pub const ITEM_ELEMENT: u16 = 0xE000;

/// Element number of the tag that ends an item of undefined length.
pub const ITEM_DELIMITATION_ELEMENT: u16 = 0xE00D;

/// Element number of the tag that ends a sequence of undefined length.
pub const SEQUENCE_DELIMITATION_ELEMENT: u16 = 0xE0DD;

/// Group number of the pixel-data attribute.
pub const PIXEL_DATA_GROUP: u16 = 0x7FE0;

/// Element number of the pixel-data attribute.
pub const PIXEL_DATA_ELEMENT: u16 = 0x0010;

/// The identifier of an attribute: a group number and an element number.
#[derive(Clone, Copy, Debug, PartialEq, Eq, Hash, Structural)]
pub struct Tag {
    pub group: u16,
    pub element: u16,
}

impl Tag {
    /// The tag `(FFFE,E000)`, which starts an item.
    pub open spec fn item() -> Tag {
        Tag { group: 0xFFFE, element: 0xE000 }
    }

    /// The tag `(FFFE,E00D)`, which ends an item of undefined length.
    pub open spec fn item_delimitation() -> Tag {
        Tag { group: 0xFFFE, element: 0xE00D }
    }

    /// The tag `(FFFE,E0DD)`, which ends a sequence of undefined length.
    pub open spec fn sequence_delimitation() -> Tag {
        Tag { group: 0xFFFE, element: 0xE0DD }
    }

    /// The tag `(7FE0,0010)` of the pixel-data attribute.
    pub open spec fn pixel_data() -> Tag {
        Tag { group: 0x7FE0, element: 0x0010 }
    }

    pub fn new(group: u16, element: u16) -> (tag: Tag)
        ensures
            tag == (Tag { group, element }),
    {
        Tag { group, element }
    }

    /// The tag that `bytes` starts with, where it holds the four bytes of
    /// one.
    pub open spec fn spec_from_bytes(encoding: Encoding, bytes: Seq<u8>) -> Result<
        Tag,
        InsufficientBytes,
    > {
        if bytes.len() < 4 {
            Err(InsufficientBytes)
        } else {
            Ok(encoding.tag_at(bytes, 0))
        }
    }

    /// Reads the tag that `bytes` starts with.
    pub fn from_bytes(encoding: Encoding, bytes: &[u8]) -> (result: Result<Tag, InsufficientBytes>)
        ensures
            result == Tag::spec_from_bytes(encoding, bytes@),
    {
        if bytes.len() < 4 {
            return Err(InsufficientBytes);
        }
        Ok(encoding.read_tag(bytes, 0))
    }

    /// A sequence-control tag is any tag of group `FFFE`; it is encoded
    /// without a value representation.
    pub open spec fn spec_is_sequence_control(&self) -> bool {
        self.group == 0xFFFE
    }

    #[verifier::when_used_as_spec(spec_is_sequence_control)]
    pub fn is_sequence_control(&self) -> (b: bool)
        ensures
            b == self.spec_is_sequence_control(),
    {
        self.group == SEQUENCE_CONTROL_GROUP
    }

    pub open spec fn spec_is_item(&self) -> bool {
        *self == Tag::item()
    }

    #[verifier::when_used_as_spec(spec_is_item)]
    pub fn is_item(&self) -> (b: bool)
        ensures
            b == self.spec_is_item(),
    {
        self.group == SEQUENCE_CONTROL_GROUP && self.element == ITEM_ELEMENT
    }

    pub open spec fn spec_is_item_delimitation(&self) -> bool {
        *self == Tag::item_delimitation()
    }

    #[verifier::when_used_as_spec(spec_is_item_delimitation)]
    pub fn is_item_delimitation(&self) -> (b: bool)
        ensures
            b == self.spec_is_item_delimitation(),
    {
        self.group == SEQUENCE_CONTROL_GROUP && self.element == ITEM_DELIMITATION_ELEMENT
    }

    pub open spec fn spec_is_sequence_delimitation(&self) -> bool {
        *self == Tag::sequence_delimitation()
    }

    #[verifier::when_used_as_spec(spec_is_sequence_delimitation)]
    pub fn is_sequence_delimitation(&self) -> (b: bool)
        ensures
            b == self.spec_is_sequence_delimitation(),
    {
        self.group == SEQUENCE_CONTROL_GROUP && self.element == SEQUENCE_DELIMITATION_ELEMENT
    }

    pub open spec fn spec_is_pixel_data(&self) -> bool {
        *self == Tag::pixel_data()
    }

    #[verifier::when_used_as_spec(spec_is_pixel_data)]
    pub fn is_pixel_data(&self) -> (b: bool)
        ensures
            b == self.spec_is_pixel_data(),
    {
        self.group == PIXEL_DATA_GROUP && self.element == PIXEL_DATA_ELEMENT
    }
}

} // verus!
