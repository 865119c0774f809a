use crate::attribute::Attribute;
use crate::encoding::Encoding;
use crate::parser::charge;
use crate::parser::charged;
use crate::parser::Action;
use crate::parser::Advance;
use crate::parser::Change;
use crate::parser::Step;
use vstd::prelude::*;

verus! {

/// The eight bytes at offset `at` are the header of an item delimiter: the
/// tag `(FFFE,E00D)` and a 32-bit length.
pub open spec fn delimiter_at(encoding: Encoding, bytes: Seq<u8>, at: int) -> bool {
    &&& 0 <= at
    &&& at + 8 <= bytes.len()
    &&& encoding.tag_at(bytes, at).spec_is_item_delimitation()
}

/// The least offset from `from` on at which an item delimiter stands.
pub open spec fn first_delimiter(encoding: Encoding, bytes: Seq<u8>, from: nat) -> Option<nat>
    decreases bytes.len() - from,
{
    if from + 8 > bytes.len() {
        None
    } else if delimiter_at(encoding, bytes, from as int) {
        Some(from)
    } else {
        first_delimiter(encoding, bytes, from + 1)
    }
}

/// `first_delimiter` finds a delimiter, and none stands between `from` and
/// it; where it finds none, none stands from `from` on.
pub proof fn lemma_first_delimiter(encoding: Encoding, bytes: Seq<u8>, from: nat)
    ensures
        match first_delimiter(encoding, bytes, from) {
            Some(at) => {
                &&& from <= at
                &&& delimiter_at(encoding, bytes, at as int)
                &&& forall|i: int| from <= i < at ==> !delimiter_at(encoding, bytes, i)
            },
            None => forall|i: int| from <= i ==> !delimiter_at(encoding, bytes, i),
        },
    decreases bytes.len() - from,
{
    if from + 8 <= bytes.len() && !delimiter_at(encoding, bytes, from as int) {
        lemma_first_delimiter(encoding, bytes, from + 1);
    }
}

/// Finds the first item delimiter of `bytes`.
pub fn find_delimiter(encoding: Encoding, bytes: &[u8]) -> (found: Option<usize>)
    ensures
        match found {
            Some(at) => at + 8 <= bytes.len() && first_delimiter(encoding, bytes@, 0) == Some(
                at as nat,
            ),
            None => first_delimiter(encoding, bytes@, 0) is None,
        },
{
    let mut at: usize = 0;
    while bytes.len() >= 8 && at <= bytes.len() - 8
        invariant
            first_delimiter(encoding, bytes@, 0) == first_delimiter(encoding, bytes@, at as nat),
        decreases bytes.len() - at,
    {
        let tag = encoding.read_tag(bytes, at);
        if tag.is_item_delimitation() {
            return Some(at);
        }
        at = at + 1;
    }
    None
}

/// Parser of a value of undefined length that is no sequence.
#[derive(Clone, Copy, Debug, PartialEq, Eq)]
pub struct DataUndefinedLengthParser {
    pub attribute: Attribute,
}

impl DataUndefinedLengthParser {
    pub fn new(attribute: Attribute) -> (parser: DataUndefinedLengthParser)
        ensures
            parser.attribute == attribute,
    {
        DataUndefinedLengthParser { attribute }
    }

    /// The value is what stands before the first item delimiter.  The eight
    /// bytes of the delimiter are consumed with it and are no part of it.
    /// Until a delimiter is at hand nothing is consumed.
    pub open spec fn spec_parse(&self, encoding: Encoding, bytes: Seq<u8>, limit: Option<u32>) -> Step {
        match first_delimiter(encoding, bytes, 0) {
            None => Step::Incomplete,
            Some(at) => Step::Advance(
                Advance {
                    action: Action::Value { attribute: self.attribute, start: 0, end: at as usize },
                    consumed: (at + 8) as usize,
                    change: Change::Pop,
                    limit: charge(limit, at + 8),
                },
            ),
        }
    }

    pub fn parse(&self, encoding: Encoding, bytes: &[u8], limit: Option<u32>) -> (step: Step)
        ensures
            step == self.spec_parse(encoding, bytes@, limit),
    {
        match find_delimiter(encoding, bytes) {
            None => Step::Incomplete,
            Some(at) => {
                Step::Advance(
                    Advance {
                        action: Action::Value { attribute: self.attribute, start: 0, end: at },
                        consumed: at + 8,
                        change: Change::Pop,
                        limit: charged(limit, at + 8),
                    },
                )
            },
        }
    }
}

} // verus!
