use crate::attribute::Attribute;
use crate::encoding::Encoding;
use crate::handler::Event;
use crate::parser::attribute::spec_value_step;
use crate::parser::attribute::value_step;
use crate::parser::data::DataParser;
use crate::parser::data_undefined_length::DataUndefinedLengthParser;
use crate::parser::encapsulated_pixel_data::EncapsulatedPixelDataParser;
use crate::parser::sequence::ItemParser;
use crate::parser::sequence::SequenceParser;
use crate::parser::sequence_undefined_length::ItemUndefinedLengthParser;
use crate::parser::sequence_undefined_length::SequenceUndefinedLengthParser;
use vstd::prelude::*;

pub mod attribute;
pub mod data;
pub mod data_undefined_length;
pub mod data_set;
pub mod encapsulated_pixel_data;
pub mod laws;
pub mod nesting;
pub mod run;
pub mod sequence;
pub mod sequence_undefined_length;

verus! {

/// The deepest nesting of parsers that is followed.
pub const MAX_DEPTH: usize = 64;

/// How a call of a parser ended.
#[derive(Clone, Copy, Debug, PartialEq, Eq, Structural)]
pub enum Status {
    /// What was to be parsed has been parsed and delivered.
    Complete,
    /// More input is needed.
    Incomplete,
    /// The handler asked to stop.
    Cancelled,
}

/// The outcome of a call of a parser: how it ended and how many bytes of its
/// input it consumed.
#[derive(Clone, Copy, Debug, PartialEq, Eq, Structural)]
pub struct ParseResult {
    pub status: Status,
    pub bytes_consumed: usize,
}

impl ParseResult {
    pub fn complete(bytes_consumed: usize) -> (result: ParseResult)
        ensures
            result == (ParseResult { status: Status::Complete, bytes_consumed }),
    {
        ParseResult { status: Status::Complete, bytes_consumed }
    }

    pub fn incomplete(bytes_consumed: usize) -> (result: ParseResult)
        ensures
            result == (ParseResult { status: Status::Incomplete, bytes_consumed }),
    {
        ParseResult { status: Status::Incomplete, bytes_consumed }
    }

    pub fn cancelled(bytes_consumed: usize) -> (result: ParseResult)
        ensures
            result == (ParseResult { status: Status::Cancelled, bytes_consumed }),
    {
        ParseResult { status: Status::Cancelled, bytes_consumed }
    }
}

/// A parser of what follows the header of an attribute, or of an item.  The
/// parsers of nested structures form a stack, the innermost on top.
#[derive(Clone, Copy, Debug, PartialEq, Eq)]
pub enum SubParser {
    /// The header of the attribute was delivered; the parser of its value is
    /// still to be chosen.
    Pending(Attribute),
    Data(DataParser),
    DataUndefinedLength(DataUndefinedLengthParser),
    Sequence(SequenceParser),
    SequenceUndefinedLength(SequenceUndefinedLengthParser),
    Item(ItemParser),
    ItemUndefinedLength(ItemUndefinedLengthParser),
    EncapsulatedPixelData(EncapsulatedPixelDataParser),
}

/// The call of the handler that belongs to a step.  Where bytes are handed
/// over they are the bytes `start..end` of the step's input.
#[derive(Clone, Copy, Debug, PartialEq, Eq)]
pub enum Action {
    /// No call.
    Silent,
    Element(Attribute),
    Value { attribute: Attribute, start: usize, end: usize },
    StartSequence(Attribute),
    StartSequenceItem(Attribute),
    EndSequenceItem(Attribute),
    EndSequence(Attribute),
    BasicOffsetTable { attribute: Attribute, start: usize, end: usize },
    PixelDataFragment { attribute: Attribute, start: usize, end: usize },
}

impl Action {
    /// The event that the action delivers when the step's input is `bytes`.
    pub open spec fn event(self, bytes: Seq<u8>) -> Option<Event> {
        match self {
            Action::Silent => None,
            Action::Element(attribute) => Some(Event::Element(attribute)),
            Action::Value { attribute, start, end } => Some(
                Event::Value(attribute, bytes.subrange(start as int, end as int)),
            ),
            Action::StartSequence(attribute) => Some(Event::StartSequence(attribute)),
            Action::StartSequenceItem(attribute) => Some(Event::StartSequenceItem(attribute)),
            Action::EndSequenceItem(attribute) => Some(Event::EndSequenceItem(attribute)),
            Action::EndSequence(attribute) => Some(Event::EndSequence(attribute)),
            Action::BasicOffsetTable { attribute, start, end } => Some(
                Event::BasicOffsetTable(attribute, bytes.subrange(start as int, end as int)),
            ),
            Action::PixelDataFragment { attribute, start, end } => Some(
                Event::PixelDataFragment(attribute, bytes.subrange(start as int, end as int)),
            ),
        }
    }

    /// The bytes that the action hands over lie within an input of `len`
    /// bytes.
    pub open spec fn within(self, len: nat) -> bool {
        match self {
            Action::Value { start, end, .. } => start <= end <= len,
            Action::BasicOffsetTable { start, end, .. } => start <= end <= len,
            Action::PixelDataFragment { start, end, .. } => start <= end <= len,
            _ => true,
        }
    }
}

/// What a step does to the stack of parsers.
#[derive(Clone, Copy, Debug, PartialEq, Eq)]
pub enum Change {
    /// The innermost parser has ended.
    Pop,
    /// A parser for a nested structure begins.
    Push(SubParser),
    /// The innermost parser goes on in another state.
    Replace(SubParser),
}

/// A step that can be taken: the call to make, the number of bytes that the
/// step consumes, the change to the stack, and the bytes that then remain in
/// the innermost region of defined length (`None` outside any such region).
#[derive(Clone, Copy, Debug, PartialEq, Eq)]
pub struct Advance {
    pub action: Action,
    pub consumed: usize,
    pub change: Change,
    pub limit: Option<u32>,
}

/// The next step of a parser on the input at hand.
#[derive(Clone, Copy, Debug, PartialEq, Eq)]
pub enum Step {
    /// The input ends before the step can be decided.
    Incomplete,
    /// The input breaks the rules of sequences and lengths.
    Malformed,
    /// The step would nest parsers more deeply than `MAX_DEPTH`.
    TooDeep,
    Advance(Advance),
}

impl SubParser {
    /// The next step of the parser on the input `bytes`, with `limit` bytes
    /// left in the innermost region of defined length and `depth` parsers on
    /// the stack.
    pub open spec fn spec_step(
        self,
        encoding: Encoding,
        bytes: Seq<u8>,
        limit: Option<u32>,
        depth: nat,
    ) -> Step {
        match self {
            SubParser::Pending(attribute) => spec_value_step(encoding, attribute, bytes, limit),
            SubParser::Data(parser) => parser.spec_parse(bytes, limit),
            SubParser::DataUndefinedLength(parser) => parser.spec_parse(encoding, bytes, limit),
            SubParser::Sequence(parser) => parser.spec_step(encoding, bytes, limit, depth),
            SubParser::SequenceUndefinedLength(parser) => parser.spec_step(
                encoding,
                bytes,
                limit,
                depth,
            ),
            SubParser::Item(parser) => parser.spec_step(encoding, bytes, limit, depth),
            SubParser::ItemUndefinedLength(parser) => parser.spec_step(
                encoding,
                bytes,
                limit,
                depth,
            ),
            SubParser::EncapsulatedPixelData(parser) => parser.spec_step(encoding, bytes, limit),
        }
    }

    pub fn step(&self, encoding: Encoding, bytes: &[u8], limit: Option<u32>, depth: usize) -> (step:
        Step)
        ensures
            step == self.spec_step(encoding, bytes@, limit, depth as nat),
    {
        match self {
            SubParser::Pending(attribute) => value_step(encoding, *attribute, bytes, limit),
            SubParser::Data(parser) => parser.parse(bytes, limit),
            SubParser::DataUndefinedLength(parser) => parser.parse(encoding, bytes, limit),
            SubParser::Sequence(parser) => parser.step(encoding, bytes, limit, depth),
            SubParser::SequenceUndefinedLength(parser) => parser.step(
                encoding,
                bytes,
                limit,
                depth,
            ),
            SubParser::Item(parser) => parser.step(encoding, bytes, limit, depth),
            SubParser::ItemUndefinedLength(parser) => parser.step(encoding, bytes, limit, depth),
            SubParser::EncapsulatedPixelData(parser) => parser.step(encoding, bytes, limit),
        }
    }
}

/// The bytes that remain in a region of `limit` bytes after `n` of them
/// have been consumed.
pub open spec fn charge(limit: Option<u32>, n: nat) -> Option<u32> {
    match limit {
        Some(left) => Some(
            if n <= left {
                (left - n) as u32
            } else {
                0u32
            },
        ),
        None => None,
    }
}

pub fn charged(limit: Option<u32>, n: usize) -> (rest: Option<u32>)
    ensures
        rest == charge(limit, n as nat),
{
    match limit {
        Some(left) => {
            if n <= left as usize {
                Some(left - n as u32)
            } else {
                Some(0)
            }
        },
        None => None,
    }
}

/// The part of the input that a step may look at: the input itself, cut
/// at the end of the innermost region of defined length.
pub open spec fn window(bytes: Seq<u8>, limit: Option<u32>) -> Seq<u8> {
    match limit {
        Some(left) => if left < bytes.len() {
            bytes.take(left as int)
        } else {
            bytes
        },
        None => bytes,
    }
}

/// The input reaches the end of the innermost region of defined length, so
/// that no further input can add to what a step may look at.
pub open spec fn region_at_hand(bytes: Seq<u8>, limit: Option<u32>) -> bool {
    match limit {
        Some(left) => left <= bytes.len(),
        None => false,
    }
}

} // verus!
