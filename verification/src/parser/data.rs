use crate::attribute::Attribute;
use crate::handler::Event;
use crate::parser::charge;
use crate::parser::charged;
use crate::parser::Action;
use crate::parser::Advance;
use crate::parser::Change;
use crate::parser::Step;
use vstd::prelude::*;

verus! {

/// Parser of a value of defined length.
#[derive(Clone, Copy, Debug, PartialEq, Eq)]
pub struct DataParser {
    pub attribute: Attribute,
}

impl DataParser {
    pub fn new(attribute: Attribute) -> (parser: DataParser)
        ensures
            parser.attribute == attribute,
    {
        DataParser { attribute }
    }

    /// The value is the first `length` bytes of the input, delivered whole
    /// once they are all there; until then nothing is consumed.
    pub open spec fn spec_parse(&self, bytes: Seq<u8>, limit: Option<u32>) -> Step {
        let length = self.attribute.length;
        if bytes.len() < length {
            Step::Incomplete
        } else {
            Step::Advance(
                Advance {
                    action: Action::Value {
                        attribute: self.attribute,
                        start: 0,
                        end: length as usize,
                    },
                    consumed: length as usize,
                    change: Change::Pop,
                    limit: charge(limit, length as nat),
                },
            )
        }
    }

    pub fn parse(&self, bytes: &[u8], limit: Option<u32>) -> (step: Step)
        ensures
            step == self.spec_parse(bytes@, limit),
    {
        let length: usize = self.attribute.length as usize;
        if bytes.len() < length {
            Step::Incomplete
        } else {
            Step::Advance(
                Advance {
                    action: Action::Value { attribute: self.attribute, start: 0, end: length },
                    consumed: length,
                    change: Change::Pop,
                    limit: charged(limit, length),
                },
            )
        }
    }
}

/// What a parser of a value of defined length delivers is a value of
/// exactly that length: the bytes that follow the header.
pub proof fn lemma_value_is_whole(parser: DataParser, bytes: Seq<u8>, limit: Option<u32>)
    ensures
        match parser.spec_parse(bytes, limit) {
            Step::Advance(advance) => {
                &&& advance.action.event(bytes) == Some(
                    Event::Value(parser.attribute, bytes.take(parser.attribute.length as int)),
                )
                &&& bytes.take(parser.attribute.length as int).len() == parser.attribute.length
                &&& advance.consumed == parser.attribute.length
            },
            _ => bytes.len() < parser.attribute.length,
        },
{
}

} // verus!
