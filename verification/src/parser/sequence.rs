use crate::attribute::Attribute;
use crate::attribute::UNDEFINED_LENGTH;
use crate::encoding::Encoding;
use crate::error::Error;
use crate::parser::attribute::header_step;
use crate::parser::attribute::spec_header_step;
use crate::parser::charge;
use crate::parser::charged;
use crate::parser::sequence_undefined_length::parse_sequence_item;
use crate::parser::sequence_undefined_length::spec_parse_sequence_item;
use crate::parser::sequence_undefined_length::ItemUndefinedLengthParser;
use crate::parser::Action;
use crate::parser::Advance;
use crate::parser::Change;
use crate::parser::Step;
use crate::parser::SubParser;
use crate::parser::MAX_DEPTH;
use vstd::prelude::*;

verus! {

/// The step that reads the header of an item of the sequence `attribute`
/// and begins the item.
///
/// The header is the tag `(FFFE,E000)` and a 32-bit length.  While fewer
/// than eight bytes are at hand the step waits; eight bytes that are no such
/// header are malformed.  An item of defined length opens a region of that length,
/// which must fit into what is left of the enclosing region once the header
/// is consumed.
pub open spec fn spec_item_step(
    encoding: Encoding,
    bytes: Seq<u8>,
    limit: Option<u32>,
    depth: nat,
    attribute: Attribute,
) -> Step {
    {
        match spec_parse_sequence_item(encoding, bytes) {
            Err(Error::InsufficientBytes) => Step::Incomplete,
            Err(_) => Step::Malformed,
            Ok(length) => {
                let rest = charge(limit, 8);
                if depth >= MAX_DEPTH {
                    Step::TooDeep
                } else if length == 0xFFFF_FFFFu32 {
                    Step::Advance(
                        Advance {
                            action: Action::StartSequenceItem(attribute),
                            consumed: 8,
                            change: Change::Push(
                                SubParser::ItemUndefinedLength(
                                    ItemUndefinedLengthParser { attribute },
                                ),
                            ),
                            limit: rest,
                        },
                    )
                } else if rest matches Some(left) && length > left {
                    Step::Malformed
                } else {
                    Step::Advance(
                        Advance {
                            action: Action::StartSequenceItem(attribute),
                            consumed: 8,
                            change: Change::Push(
                                SubParser::Item(
                                    ItemParser { attribute, outer: charge(rest, length as nat) },
                                ),
                            ),
                            limit: Some(length),
                        },
                    )
                }
            },
        }
    }
}

pub fn item_step(
    encoding: Encoding,
    bytes: &[u8],
    limit: Option<u32>,
    depth: usize,
    attribute: Attribute,
) -> (step: Step)
    ensures
        step == spec_item_step(encoding, bytes@, limit, depth as nat, attribute),
{
    match parse_sequence_item(encoding, bytes) {
        Err(Error::InsufficientBytes) => Step::Incomplete,
        Err(_) => Step::Malformed,
        Ok(length) => {
            let rest = charged(limit, 8);
            if depth >= MAX_DEPTH {
                return Step::TooDeep;
            }
            if length == UNDEFINED_LENGTH {
                return Step::Advance(
                    Advance {
                        action: Action::StartSequenceItem(attribute),
                        consumed: 8,
                        change: Change::Push(
                            SubParser::ItemUndefinedLength(ItemUndefinedLengthParser { attribute }),
                        ),
                        limit: rest,
                    },
                );
            }
            match rest {
                Some(left) => {
                    if length > left {
                        return Step::Malformed;
                    }
                },
                None => {},
            }
            Step::Advance(
                Advance {
                    action: Action::StartSequenceItem(attribute),
                    consumed: 8,
                    change: Change::Push(
                        SubParser::Item(
                            ItemParser { attribute, outer: charged(rest, length as usize) },
                        ),
                    ),
                    limit: Some(length),
                },
            )
        },
    }
}

/// Parser of a sequence of defined length.  While it is the innermost
/// parser, the limit is what is left of the sequence.
#[derive(Clone, Copy, Debug, PartialEq, Eq)]
pub struct SequenceParser {
    pub attribute: Attribute,
    /// What is left of the enclosing region once the sequence has ended.
    pub outer: Option<u32>,
}

impl SequenceParser {
    /// The parser of the sequence `attribute`, begun with `limit` bytes
    /// left in the enclosing region.
    pub fn new(attribute: Attribute, limit: Option<u32>) -> (parser: SequenceParser)
        ensures
            parser == (SequenceParser { attribute, outer: charge(limit, attribute.length as nat) }),
    {
        SequenceParser { attribute, outer: charged(limit, attribute.length as usize) }
    }

    /// With nothing left the sequence ends; otherwise an item begins.
    pub open spec fn spec_step(
        &self,
        encoding: Encoding,
        bytes: Seq<u8>,
        limit: Option<u32>,
        depth: nat,
    ) -> Step {
        if limit == Some(0u32) {
            Step::Advance(
                Advance {
                    action: Action::EndSequence(self.attribute),
                    consumed: 0,
                    change: Change::Pop,
                    limit: self.outer,
                },
            )
        } else {
            spec_item_step(encoding, bytes, limit, depth, self.attribute)
        }
    }

    pub fn step(&self, encoding: Encoding, bytes: &[u8], limit: Option<u32>, depth: usize) -> (step:
        Step)
        ensures
            step == self.spec_step(encoding, bytes@, limit, depth as nat),
    {
        match limit {
            Some(left) => {
                if left == 0 {
                    return Step::Advance(
                        Advance {
                            action: Action::EndSequence(self.attribute),
                            consumed: 0,
                            change: Change::Pop,
                            limit: self.outer,
                        },
                    );
                }
            },
            None => {},
        }
        item_step(encoding, bytes, limit, depth, self.attribute)
    }
}

/// Parser of an item of defined length: a data set of that many bytes.
/// While it is the innermost parser, the limit is what is left of the item.
#[derive(Clone, Copy, Debug, PartialEq, Eq)]
pub struct ItemParser {
    /// The sequence that the item belongs to.
    pub attribute: Attribute,
    /// What is left of the enclosing region once the item has ended.
    pub outer: Option<u32>,
}

impl ItemParser {
    /// With nothing left the item ends; otherwise an attribute begins.
    pub open spec fn spec_step(
        &self,
        encoding: Encoding,
        bytes: Seq<u8>,
        limit: Option<u32>,
        depth: nat,
    ) -> Step {
        if limit == Some(0u32) {
            Step::Advance(
                Advance {
                    action: Action::EndSequenceItem(self.attribute),
                    consumed: 0,
                    change: Change::Pop,
                    limit: self.outer,
                },
            )
        } else {
            spec_header_step(encoding, bytes, limit, depth)
        }
    }

    pub fn step(&self, encoding: Encoding, bytes: &[u8], limit: Option<u32>, depth: usize) -> (step:
        Step)
        ensures
            step == self.spec_step(encoding, bytes@, limit, depth as nat),
    {
        match limit {
            Some(left) => {
                if left == 0 {
                    return Step::Advance(
                        Advance {
                            action: Action::EndSequenceItem(self.attribute),
                            consumed: 0,
                            change: Change::Pop,
                            limit: self.outer,
                        },
                    );
                }
            },
            None => {},
        }
        header_step(encoding, bytes, limit, depth)
    }
}

} // verus!
