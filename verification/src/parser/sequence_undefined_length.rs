use crate::attribute::Attribute;
use crate::encoding::Encoding;
use crate::error::Error;
use crate::parser::attribute::element_step;
use crate::parser::attribute::parse_attribute;
use crate::parser::attribute::spec_element_step;
use crate::parser::attribute::spec_parse_attribute;
use crate::parser::charge;
use crate::parser::charged;
use crate::parser::sequence::item_step;
use crate::parser::sequence::spec_item_step;
use crate::parser::Action;
use crate::parser::Advance;
use crate::parser::Change;
use crate::parser::Step;
use vstd::prelude::*;

verus! {

/// What the header of an item says, where `bytes` starts with one: the
/// length of the item.  The header is eight bytes, the tag `(FFFE,E000)` and
/// a 32-bit length.  Fewer than eight bytes are not enough to tell; eight
/// bytes that start with another tag are no item.
pub open spec fn spec_parse_sequence_item(encoding: Encoding, bytes: Seq<u8>) -> Result<
    u32,
    Error,
> {
    if bytes.len() < 8 {
        Err(Error::InsufficientBytes)
    } else if encoding.tag_at(bytes, 0).spec_is_item() {
        Ok(encoding.u32_at(bytes, 4))
    } else {
        Err(Error::MalformedSequence)
    }
}

/// Reads the header of an item and returns the length of the item.
pub fn parse_sequence_item(encoding: Encoding, bytes: &[u8]) -> (result: Result<u32, Error>)
    ensures
        result == spec_parse_sequence_item(encoding, bytes@),
{
    if bytes.len() < 8 {
        return Err(Error::InsufficientBytes);
    }
    let tag = encoding.read_tag(bytes, 0);
    if !tag.is_item() {
        return Err(Error::MalformedSequence);
    }
    Ok(encoding.read_u32(bytes, 4))
}

/// Parser of a sequence of undefined length: items up to a sequence
/// delimiter.
#[derive(Clone, Copy, Debug, PartialEq, Eq)]
pub struct SequenceUndefinedLengthParser {
    pub attribute: Attribute,
}

impl SequenceUndefinedLengthParser {
    pub fn new(attribute: Attribute) -> (parser: SequenceUndefinedLengthParser)
        ensures
            parser.attribute == attribute,
    {
        SequenceUndefinedLengthParser { attribute }
    }

    /// A sequence delimiter ends the sequence and is consumed; otherwise an
    /// item begins.
    pub open spec fn spec_step(
        &self,
        encoding: Encoding,
        bytes: Seq<u8>,
        limit: Option<u32>,
        depth: nat,
    ) -> Step {
        if bytes.len() < 8 {
            Step::Incomplete
        } else if encoding.tag_at(bytes, 0).spec_is_sequence_delimitation() {
            Step::Advance(
                Advance {
                    action: Action::EndSequence(self.attribute),
                    consumed: 8,
                    change: Change::Pop,
                    limit: charge(limit, 8),
                },
            )
        } else {
            spec_item_step(encoding, bytes, limit, depth, self.attribute)
        }
    }

    pub fn step(&self, encoding: Encoding, bytes: &[u8], limit: Option<u32>, depth: usize) -> (step:
        Step)
        ensures
            step == self.spec_step(encoding, bytes@, limit, depth as nat),
    {
        if bytes.len() < 8 {
            return Step::Incomplete;
        }
        let tag = encoding.read_tag(bytes, 0);
        if tag.is_sequence_delimitation() {
            return Step::Advance(
                Advance {
                    action: Action::EndSequence(self.attribute),
                    consumed: 8,
                    change: Change::Pop,
                    limit: charged(limit, 8),
                },
            );
        }
        item_step(encoding, bytes, limit, depth, self.attribute)
    }
}

/// Parser of an item of undefined length: a data set up to an item
/// delimiter.  It stands between the data set and the handler: the header
/// of the delimiter ends the item and is not delivered as an element;
/// every other header is.
#[derive(Clone, Copy, Debug, PartialEq, Eq)]
pub struct ItemUndefinedLengthParser {
    /// The sequence that the item belongs to.
    pub attribute: Attribute,
}

impl ItemUndefinedLengthParser {
    pub open spec fn spec_step(
        &self,
        encoding: Encoding,
        bytes: Seq<u8>,
        limit: Option<u32>,
        depth: nat,
    ) -> Step {
        match spec_parse_attribute(encoding, bytes) {
            Err(_) => Step::Incomplete,
            Ok((header_bytes, attribute)) => {
                if attribute.tag.spec_is_item_delimitation() {
                    Step::Advance(
                        Advance {
                            action: Action::EndSequenceItem(self.attribute),
                            consumed: header_bytes,
                            change: Change::Pop,
                            limit: charge(limit, header_bytes as nat),
                        },
                    )
                } else {
                    spec_element_step(attribute, header_bytes, limit, depth)
                }
            },
        }
    }

    pub fn step(&self, encoding: Encoding, bytes: &[u8], limit: Option<u32>, depth: usize) -> (step:
        Step)
        ensures
            step == self.spec_step(encoding, bytes@, limit, depth as nat),
    {
        match parse_attribute(encoding, bytes) {
            Err(_) => Step::Incomplete,
            Ok((header_bytes, attribute)) => {
                if attribute.tag.is_item_delimitation() {
                    Step::Advance(
                        Advance {
                            action: Action::EndSequenceItem(self.attribute),
                            consumed: header_bytes,
                            change: Change::Pop,
                            limit: charged(limit, header_bytes),
                        },
                    )
                } else {
                    element_step(attribute, header_bytes, limit, depth)
                }
            },
        }
    }
}

} // verus!
