use crate::attribute::Attribute;
use crate::encoding::Encoding;
use crate::parser::charge;
use crate::parser::charged;
use crate::parser::Action;
use crate::parser::Advance;
use crate::parser::Change;
use crate::parser::SubParser;
use crate::parser::Step;
use vstd::prelude::*;

verus! {

/// Parser of encapsulated pixel data: the items of a pixel-data attribute
/// of undefined length.  The first item is the basic offset table, each
/// later one a fragment.
#[derive(Clone, Copy, Debug, PartialEq, Eq)]
pub struct EncapsulatedPixelDataParser {
    pub attribute: Attribute,
    /// No item has been delivered yet.
    pub first: bool,
}

impl EncapsulatedPixelDataParser {
    pub fn new(attribute: Attribute) -> (parser: EncapsulatedPixelDataParser)
        ensures
            parser == (EncapsulatedPixelDataParser { attribute, first: true }),
    {
        EncapsulatedPixelDataParser { attribute, first: true }
    }

    /// The call that delivers the bytes `start..end` as the next item.
    pub open spec fn spec_action(&self, start: usize, end: usize) -> Action {
        if self.first {
            Action::BasicOffsetTable { attribute: self.attribute, start, end }
        } else {
            Action::PixelDataFragment { attribute: self.attribute, start, end }
        }
    }

    /// One item per step.  A sequence delimiter ends the pixel data and is
    /// consumed without a call.  An item is delivered whole, once its header
    /// and its bytes are all there; an item of undefined length, or any other
    /// tag, is malformed.
    pub open spec fn spec_step(&self, encoding: Encoding, bytes: Seq<u8>, limit: Option<u32>) -> Step {
        if bytes.len() < 8 {
            Step::Incomplete
        } else {
            let tag = encoding.tag_at(bytes, 0);
            let length = encoding.u32_at(bytes, 4);
            if tag.spec_is_sequence_delimitation() {
                Step::Advance(
                    Advance {
                        action: Action::Silent,
                        consumed: 8,
                        change: Change::Pop,
                        limit: charge(limit, 8),
                    },
                )
            } else if !tag.spec_is_item() || length == 0xFFFF_FFFFu32 {
                Step::Malformed
            } else if bytes.len() < 8 + length {
                Step::Incomplete
            } else {
                Step::Advance(
                    Advance {
                        action: self.spec_action(8, (8 + length) as usize),
                        consumed: (8 + length) as usize,
                        change: Change::Replace(
                            SubParser::EncapsulatedPixelData(
                                EncapsulatedPixelDataParser {
                                    attribute: self.attribute,
                                    first: false,
                                },
                            ),
                        ),
                        limit: charge(limit, (8 + length) as nat),
                    },
                )
            }
        }
    }

    pub fn step(&self, encoding: Encoding, bytes: &[u8], limit: Option<u32>) -> (step: Step)
        ensures
            step == self.spec_step(encoding, bytes@, limit),
    {
        if bytes.len() < 8 {
            return Step::Incomplete;
        }
        let tag = encoding.read_tag(bytes, 0);
        let length: u32 = encoding.read_u32(bytes, 4);
        if tag.is_sequence_delimitation() {
            return Step::Advance(
                Advance {
                    action: Action::Silent,
                    consumed: 8,
                    change: Change::Pop,
                    limit: charged(limit, 8),
                },
            );
        }
        if !tag.is_item() || length == 0xFFFF_FFFF {
            return Step::Malformed;
        }
        if bytes.len() - 8 < length as usize {
            return Step::Incomplete;
        }
        let end: usize = 8 + length as usize;
        let action = if self.first {
            Action::BasicOffsetTable { attribute: self.attribute, start: 8, end }
        } else {
            Action::PixelDataFragment { attribute: self.attribute, start: 8, end }
        };
        Step::Advance(
            Advance {
                action,
                consumed: end,
                change: Change::Replace(
                    SubParser::EncapsulatedPixelData(
                        EncapsulatedPixelDataParser { attribute: self.attribute, first: false },
                    ),
                ),
                limit: charged(limit, end),
            },
        )
    }
}

} // verus!
