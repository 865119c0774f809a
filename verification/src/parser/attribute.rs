use crate::attribute::Attribute;
use crate::encoding::Encoding;
use crate::encoding::InsufficientBytes;
use crate::parser::charge;
use crate::parser::charged;
use crate::parser::data::DataParser;
use crate::parser::data_undefined_length::DataUndefinedLengthParser;
use crate::parser::encapsulated_pixel_data::EncapsulatedPixelDataParser;
use crate::error::Error;
use crate::handler::events_of;
use crate::handler::none_cancelled;
use crate::handler::Control;
use crate::handler::Handler;
use crate::handler::Recorder;
use crate::parser::region_at_hand;
use crate::parser::laws::lemma_parse_of_part;
use crate::parser::run::lemma_step_advances;
use crate::parser::run::rank;
use crate::parser::run::run;
use crate::parser::run::Run;
use crate::parser::ParseResult;
use crate::parser::Status;
use crate::parser::sequence::SequenceParser;
use crate::parser::sequence_undefined_length::SequenceUndefinedLengthParser;
use crate::parser::window;
use crate::parser::Action;
use crate::parser::Advance;
use crate::parser::Change;
use crate::parser::Step;
use crate::parser::SubParser;
use crate::parser::MAX_DEPTH;
use crate::tag::Tag;
use vstd::prelude::*;
use vstd::slice::slice_subrange;

verus! {

/// A tag of group `FFFE` is written without a value representation, in
/// every encoding.
pub open spec fn spec_is_sequence_tag(tag: Tag) -> bool {
    tag.group == 0xFFFE
}

#[verifier::when_used_as_spec(spec_is_sequence_tag)]
pub fn is_sequence_tag(tag: Tag) -> (b: bool)
    ensures
        b == spec_is_sequence_tag(tag),
{
    tag.is_sequence_control()
}

/// Pixel data of undefined length is encapsulated.
pub open spec fn spec_is_encapsulated_pixel_data(attribute: &Attribute) -> bool {
    attribute.tag.spec_is_pixel_data() && attribute.length == 0xFFFF_FFFFu32
}

#[verifier::when_used_as_spec(spec_is_encapsulated_pixel_data)]
pub fn is_encapsulated_pixel_data(attribute: &Attribute) -> (b: bool)
    ensures
        b == spec_is_encapsulated_pixel_data(attribute),
{
    attribute.tag.is_pixel_data() && attribute.has_undefined_length()
}

/// A value of undefined length is a sequence where it starts with the
/// header of an item.
pub open spec fn spec_is_sequence(encoding: Encoding, bytes: Seq<u8>) -> bool {
    bytes.len() >= 8 && encoding.tag_at(bytes, 0).spec_is_item()
}

pub fn is_sequence(encoding: Encoding, bytes: &[u8]) -> (b: bool)
    ensures
        b == spec_is_sequence(encoding, bytes@),
{
    if bytes.len() >= 8 {
        match Tag::from_bytes(encoding, bytes) {
            Ok(item_tag) => {
                if item_tag.is_item() {
                    return true;
                }
            },
            Err(_) => {},
        }
    }
    false
}

/// The header that `bytes` starts with: its length in bytes and the
/// attribute it describes.
///
/// The tag is read first, and needs six bytes to be at hand.  A
/// sequence-control tag is followed by a 32-bit length and nothing else, in
/// every encoding; any other tag by what the encoding prescribes.
pub open spec fn spec_parse_attribute(encoding: Encoding, bytes: Seq<u8>) -> Result<
    (usize, Attribute),
    InsufficientBytes,
> {
    if bytes.len() < 6 {
        Err(InsufficientBytes)
    } else {
        let tag = encoding.tag_at(bytes, 0);
        if spec_is_sequence_tag(tag) {
            if bytes.len() < 8 {
                Err(InsufficientBytes)
            } else {
                Ok((8usize, Attribute { tag, vr: None, length: encoding.u32_at(bytes, 4) }))
            }
        } else {
            match encoding.spec_vr_and_length(bytes) {
                None => Err(InsufficientBytes),
                Some((vr, length, header_bytes)) => Ok(
                    (header_bytes as usize, Attribute { tag, vr, length }),
                ),
            }
        }
    }
}

pub fn parse_attribute(encoding: Encoding, bytes: &[u8]) -> (result: Result<
    (usize, Attribute),
    InsufficientBytes,
>)
    ensures
        result == spec_parse_attribute(encoding, bytes@),
{
    if bytes.len() < 6 {
        return Err(InsufficientBytes);
    }
    let tag = encoding.read_tag(bytes, 0);
    if is_sequence_tag(tag) {
        if bytes.len() < 8 {
            return Err(InsufficientBytes);
        }
        let length: u32 = encoding.read_u32(bytes, 4);
        Ok((8, Attribute { tag, vr: None, length }))
    } else {
        match encoding.vr_and_length(bytes) {
            Err(e) => Err(e),
            Ok((vr, length, header_bytes)) => Ok((header_bytes, Attribute { tag, vr, length })),
        }
    }
}

/// The step that delivers the header of `attribute` as an element and
/// leaves its value pending.
pub open spec fn spec_element_step(
    attribute: Attribute,
    header_bytes: usize,
    limit: Option<u32>,
    depth: nat,
) -> Step {
    if depth >= MAX_DEPTH {
        Step::TooDeep
    } else {
        Step::Advance(
            Advance {
                action: Action::Element(attribute),
                consumed: header_bytes,
                change: Change::Push(SubParser::Pending(attribute)),
                limit: charge(limit, header_bytes as nat),
            },
        )
    }
}

pub fn element_step(attribute: Attribute, header_bytes: usize, limit: Option<u32>, depth: usize) -> (step:
    Step)
    ensures
        step == spec_element_step(attribute, header_bytes, limit, depth as nat),
{
    if depth >= MAX_DEPTH {
        Step::TooDeep
    } else {
        Step::Advance(
            Advance {
                action: Action::Element(attribute),
                consumed: header_bytes,
                change: Change::Push(SubParser::Pending(attribute)),
                limit: charged(limit, header_bytes),
            },
        )
    }
}

/// The step at the start of an attribute: its header is read and delivered.
pub open spec fn spec_header_step(
    encoding: Encoding,
    bytes: Seq<u8>,
    limit: Option<u32>,
    depth: nat,
) -> Step {
    match spec_parse_attribute(encoding, bytes) {
        Err(_) => Step::Incomplete,
        Ok((header_bytes, attribute)) => spec_element_step(attribute, header_bytes, limit, depth),
    }
}

pub fn header_step(encoding: Encoding, bytes: &[u8], limit: Option<u32>, depth: usize) -> (step:
    Step)
    ensures
        step == spec_header_step(encoding, bytes@, limit, depth as nat),
{
    match parse_attribute(encoding, bytes) {
        Err(_) => Step::Incomplete,
        Ok((header_bytes, attribute)) => element_step(attribute, header_bytes, limit, depth),
    }
}

/// The parser of the value of `attribute`, where `bytes` is what follows
/// its header and `limit` what is left of the enclosing region:
///
/// - a sequence by its value representation: a sequence parser, for a
///   defined or an undefined length;
/// - pixel data of undefined length: the parser of encapsulated pixel data;
/// - any other undefined length: a sequence parser where the value starts
///   with the header of an item, and else the parser of a value that ends at
///   a delimiter;
/// - otherwise the parser of a value of defined length.
pub open spec fn spec_make_parser(
    encoding: Encoding,
    attribute: Attribute,
    bytes: Seq<u8>,
    limit: Option<u32>,
) -> SubParser {
    if attribute.spec_is_sequence() {
        if attribute.spec_has_undefined_length() {
            SubParser::SequenceUndefinedLength(SequenceUndefinedLengthParser { attribute })
        } else {
            SubParser::Sequence(
                SequenceParser { attribute, outer: charge(limit, attribute.length as nat) },
            )
        }
    } else if spec_is_encapsulated_pixel_data(&attribute) {
        SubParser::EncapsulatedPixelData(EncapsulatedPixelDataParser { attribute, first: true })
    } else if attribute.spec_has_undefined_length() {
        if spec_is_sequence(encoding, bytes) {
            SubParser::SequenceUndefinedLength(SequenceUndefinedLengthParser { attribute })
        } else {
            SubParser::DataUndefinedLength(DataUndefinedLengthParser { attribute })
        }
    } else {
        SubParser::Data(DataParser { attribute })
    }
}

pub fn make_parser(encoding: Encoding, attribute: Attribute, bytes: &[u8], limit: Option<u32>) -> (parser:
    SubParser)
    ensures
        parser == spec_make_parser(encoding, attribute, bytes@, limit),
{
    if attribute.is_sequence() {
        if attribute.has_undefined_length() {
            SubParser::SequenceUndefinedLength(SequenceUndefinedLengthParser::new(attribute))
        } else {
            SubParser::Sequence(SequenceParser::new(attribute, limit))
        }
    } else if is_encapsulated_pixel_data(&attribute) {
        SubParser::EncapsulatedPixelData(EncapsulatedPixelDataParser::new(attribute))
    } else if attribute.has_undefined_length() {
        if is_sequence(encoding, bytes) {
            SubParser::SequenceUndefinedLength(SequenceUndefinedLengthParser::new(attribute))
        } else {
            SubParser::DataUndefinedLength(DataUndefinedLengthParser::new(attribute))
        }
    } else {
        SubParser::Data(DataParser::new(attribute))
    }
}

/// An undefined length that is neither a sequence by its value
/// representation nor encapsulated pixel data is told apart by the eight
/// bytes that follow the header.
pub open spec fn needs_look_ahead(attribute: Attribute) -> bool {
    &&& attribute.spec_has_undefined_length()
    &&& !attribute.spec_is_sequence()
    &&& !spec_is_encapsulated_pixel_data(&attribute)
}

/// The step after the header of `attribute`: the parser of its value is
/// chosen and begins.
///
/// A sequence is announced to the handler, and its parser takes the place
/// of the pending value; a sequence of defined length opens a region of
/// that length, which must fit into the enclosing one.  Encapsulated pixel
/// data begins without a call.  A plain value is delivered at once, by its
/// own parser.
pub open spec fn spec_value_step(
    encoding: Encoding,
    attribute: Attribute,
    bytes: Seq<u8>,
    limit: Option<u32>,
) -> Step {
    if needs_look_ahead(attribute) && bytes.len() < 8 {
        Step::Incomplete
    } else {
        let parser = spec_make_parser(encoding, attribute, bytes, limit);
        match parser {
            SubParser::Data(data) => data.spec_parse(bytes, limit),
            SubParser::DataUndefinedLength(data) => data.spec_parse(encoding, bytes, limit),
            SubParser::Sequence(_) => {
                if limit matches Some(left) && attribute.length > left {
                    Step::Malformed
                } else {
                    Step::Advance(
                        Advance {
                            action: Action::StartSequence(attribute),
                            consumed: 0,
                            change: Change::Replace(parser),
                            limit: Some(attribute.length),
                        },
                    )
                }
            },
            SubParser::SequenceUndefinedLength(_) => Step::Advance(
                Advance {
                    action: Action::StartSequence(attribute),
                    consumed: 0,
                    change: Change::Replace(parser),
                    limit,
                },
            ),
            _ => Step::Advance(
                Advance { action: Action::Silent, consumed: 0, change: Change::Replace(parser), limit },
            ),
        }
    }
}

pub fn value_step(encoding: Encoding, attribute: Attribute, bytes: &[u8], limit: Option<u32>) -> (step:
    Step)
    ensures
        step == spec_value_step(encoding, attribute, bytes@, limit),
{
    if attribute.has_undefined_length() && !attribute.is_sequence() && !is_encapsulated_pixel_data(
        &attribute,
    ) && bytes.len() < 8 {
        return Step::Incomplete;
    }
    let parser = make_parser(encoding, attribute, bytes, limit);
    match parser {
        SubParser::Data(data) => data.parse(bytes, limit),
        SubParser::DataUndefinedLength(data) => data.parse(encoding, bytes, limit),
        SubParser::Sequence(_) => {
            match limit {
                Some(left) => {
                    if attribute.length > left {
                        return Step::Malformed;
                    }
                },
                None => {},
            }
            Step::Advance(
                Advance {
                    action: Action::StartSequence(attribute),
                    consumed: 0,
                    change: Change::Replace(parser),
                    limit: Some(attribute.length),
                },
            )
        },
        SubParser::SequenceUndefinedLength(_) => Step::Advance(
            Advance {
                action: Action::StartSequence(attribute),
                consumed: 0,
                change: Change::Replace(parser),
                limit,
            },
        ),
        _ => Step::Advance(
            Advance { action: Action::Silent, consumed: 0, change: Change::Replace(parser), limit },
        ),
    }
}

/// The state of an attribute parser: the stack of parsers that have begun,
/// the innermost last, and the number of bytes left in the innermost region
/// of defined length (`None` outside any such region).
pub struct ParserState {
    pub stack: Seq<SubParser>,
    pub limit: Option<u32>,
}

impl ParserState {
    /// The state before the header of an attribute.
    pub open spec fn initial() -> ParserState {
        ParserState { stack: Seq::empty(), limit: None }
    }

    /// No parser has begun: the state is between two attributes.
    pub open spec fn is_idle(self) -> bool {
        self.stack.len() == 0
    }

    /// The step that the innermost parser takes on the input `seen`;
    /// between two attributes, the step that reads a header.
    pub open spec fn inner_step(self, encoding: Encoding, seen: Seq<u8>) -> Step {
        let depth = self.stack.len();
        if depth == 0 {
            spec_header_step(encoding, seen, self.limit, depth)
        } else {
            self.stack.last().spec_step(encoding, seen, self.limit, depth)
        }
    }

    /// The next step in this state on the input `bytes`.
    ///
    /// The innermost parser decides, and sees the input only up to the end
    /// of the innermost region of defined length.  Where it needs more than
    /// the region holds, and the region is all at hand, the input is
    /// malformed.
    #[verifier::opaque]
    pub open spec fn step(self, encoding: Encoding, bytes: Seq<u8>) -> Step {
        let step = self.inner_step(encoding, window(bytes, self.limit));
        if step is Incomplete && region_at_hand(bytes, self.limit) {
            Step::Malformed
        } else {
            step
        }
    }

    /// The state after a step.
    pub open spec fn apply(self, advance: Advance) -> ParserState {
        let below = if self.stack.len() > 0 {
            self.stack.drop_last()
        } else {
            self.stack
        };
        ParserState {
            stack: match advance.change {
                Change::Pop => below,
                Change::Push(parser) => self.stack.push(parser),
                Change::Replace(parser) => below.push(parser),
            },
            limit: advance.limit,
        }
    }
}

/// The parser of one attribute, with everything nested in it.  It keeps
/// its place between calls, so that a parse that ran out of input goes on
/// where it stopped.
pub struct AttributeParser {
    stack: Vec<SubParser>,
    limit: Option<u32>,
}

impl View for AttributeParser {
    type V = ParserState;

    closed spec fn view(&self) -> ParserState {
        ParserState { stack: self.stack@, limit: self.limit }
    }
}

impl AttributeParser {
    pub fn default() -> (parser: AttributeParser)
        ensures
            parser@ == ParserState::initial(),
    {
        AttributeParser { stack: Vec::new(), limit: None }
    }

    /// Whether the parser stands between two attributes.
    pub fn is_idle(&self) -> (idle: bool)
        ensures
            idle == self@.is_idle(),
    {
        self.stack.len() == 0
    }

    /// The next step on the input `bytes`.  The parser itself is left as it
    /// is: the step is taken by `advance`.
    pub fn step(&self, encoding: Encoding, bytes: &[u8]) -> (step: Step)
        ensures
            step == self@.step(encoding, bytes@),
    {
        reveal(ParserState::step);
        let mut seen: &[u8] = bytes;
        let mut at_hand: bool = false;
        match self.limit {
            Some(left) => {
                if (left as usize) < bytes.len() {
                    seen = slice_subrange(bytes, 0, left as usize);
                }
                at_hand = left as usize <= bytes.len();
            },
            None => {},
        }
        let depth: usize = self.stack.len();
        let step = if depth == 0 {
            header_step(encoding, seen, self.limit, depth)
        } else {
            self.stack[depth - 1].step(encoding, seen, self.limit, depth)
        };
        match step {
            Step::Incomplete => {
                if at_hand {
                    Step::Malformed
                } else {
                    Step::Incomplete
                }
            },
            _ => step,
        }
    }

    /// Takes a step.
    pub fn advance(&mut self, advance: &Advance)
        ensures
            final(self)@ == old(self)@.apply(*advance),
    {
        match advance.change {
            Change::Pop => {
                self.stack.pop();
            },
            Change::Push(parser) => {
                self.stack.push(parser);
            },
            Change::Replace(parser) => {
                self.stack.pop();
                self.stack.push(parser);
            },
        }
        self.limit = advance.limit;
    }

    /// Parses one attribute, with everything nested in it, from `bytes`,
    /// and delivers its events to the handler.  A parser that stopped
    /// `Incomplete` or `Cancelled` goes on where it stopped, on input that
    /// starts where it stopped consuming.
    ///
    /// The parse ends `Complete` once the attribute has been delivered
    /// whole; `Incomplete` where the input ends before that; `Cancelled`
    /// where the handler says so; and with an error where the input is
    /// malformed.  The result says how many bytes were consumed.
    pub fn parse<H: Handler>(
        &mut self,
        encoding: Encoding,
        handler: &mut Recorder<H>,
        bytes: &[u8],
    ) -> (result: Result<ParseResult, Error>)
        ensures
            final(handler).extends(old(handler).calls()),
            exists|steps: nat|
                (#[trigger] run(encoding, old(self)@, bytes@, steps, false)).ends_as(
                    encoding,
                    bytes@,
                    false,
                    result,
                    final(self)@,
                    final(handler).calls_since(old(handler).calls()),
                ),
    {
        self.drive(encoding, handler, bytes, false)
    }

    /// Parses one attribute as `parse` does, while it hands the input on
    /// one byte at a time: it calls `parse` on the bytes it holds, from
    /// where the parse stopped consuming, and after every `Incomplete` takes
    /// one more byte of `bytes` and calls again.
    ///
    /// The result, the state that is left and the calls made to the handler
    /// are those of one call of `parse` on all of `bytes`: feeding the input
    /// in single bytes changes neither the events nor their order, nor the
    /// number of bytes consumed.
    pub fn parse_byte_by_byte<H: Handler>(
        &mut self,
        encoding: Encoding,
        handler: &mut Recorder<H>,
        bytes: &[u8],
    ) -> (result: Result<ParseResult, Error>)
        ensures
            final(handler).extends(old(handler).calls()),
            exists|steps: nat|
                (#[trigger] run(encoding, old(self)@, bytes@, steps, false)).ends_as(
                    encoding,
                    bytes@,
                    false,
                    result,
                    final(self)@,
                    final(handler).calls_since(old(handler).calls()),
                ),
    {
        let ghost start = self@;
        let ghost before = handler.calls();
        let ghost mut steps: nat = 0;
        let mut consumed: usize = 0;
        let mut available: usize = 0;
        assert(handler.calls_since(before) =~= Seq::empty());
        assert(events_of(handler.calls_since(before)) =~= Seq::empty());
        loop
            invariant
                start == old(self)@,
                before == old(handler).calls(),
                consumed <= available <= bytes.len(),
                handler.extends(before),
                none_cancelled(handler.calls_since(before)),
                !run(encoding, start, bytes@, steps, false).is_finished(bytes@, false),
                run(encoding, start, bytes@, steps, false) == (Run {
                    state: self@,
                    consumed: consumed as nat,
                    events: events_of(handler.calls_since(before)),
                    steps,
                }),
            decreases bytes.len() - available,
        {
            let ghost here = run(encoding, start, bytes@, steps, false);
            let ghost made = handler.calls_since(before);
            let ghost calls = handler.calls();
            let ghost state = self@;
            let part = slice_subrange(bytes, consumed, available);
            let result = self.parse(encoding, handler, part);
            let ghost total: nat = 0;
            let ghost inner = here;
            proof {
                let more = choose|more: nat|
                    (#[trigger] run(encoding, state, part@, more, false)).ends_as(
                        encoding,
                        part@,
                        false,
                        result,
                        self@,
                        handler.calls_since(calls),
                    );
                inner = run(encoding, state, part@, more, false);
                total = lemma_parse_of_part(
                    encoding,
                    start,
                    bytes@,
                    steps,
                    available as nat,
                    more,
                );
                let added = handler.calls_since(calls);
                assert(handler.calls_since(before) =~= made + added);
                assert(events_of(made + added) =~= events_of(made) + events_of(added));
                if added.len() > 0 {
                    assert((made + added).drop_last() =~= made + added.drop_last());
                    assert(events_of(made) + inner.events.push(events_of(added).last()) =~= (
                        events_of(made) + inner.events).push(events_of(added).last()));
                }
            }
            let ghost whole = run(encoding, start, bytes@, total, false);
            match result {
                Err(error) => {
                    let result = Err(error);
                    assert(whole.ends_as(
                        encoding,
                        bytes@,
                        false,
                        result,
                        self@,
                        handler.calls_since(before),
                    ));
                    return result;
                },
                Ok(outcome) => {
                    consumed = consumed + outcome.bytes_consumed;
                    match outcome.status {
                        Status::Complete => {
                            let result = Ok(ParseResult::complete(consumed));
                            assert(whole.ends_as(
                                encoding,
                                bytes@,
                                false,
                                result,
                                self@,
                                handler.calls_since(before),
                            ));
                            return result;
                        },
                        Status::Cancelled => {
                            let result = Ok(ParseResult::cancelled(consumed));
                            assert(whole.ends_as(
                                encoding,
                                bytes@,
                                false,
                                result,
                                self@,
                                handler.calls_since(before),
                            ));
                            return result;
                        },
                        Status::Incomplete => {
                            if available == bytes.len() {
                                let result = Ok(ParseResult::incomplete(consumed));
                                assert(whole.ends_as(
                                    encoding,
                                    bytes@,
                                    false,
                                    result,
                                    self@,
                                    handler.calls_since(before),
                                ));
                                return result;
                            }
                            available = available + 1;
                            proof {
                                steps = total;
                            }
                        },
                    }
                },
            }
        }
    }

    /// Takes steps until the parse is finished or cannot go on, making the
    /// call of each step before the step is taken.
    pub(crate) fn drive<H: Handler>(
        &mut self,
        encoding: Encoding,
        handler: &mut Recorder<H>,
        bytes: &[u8],
        whole_data_set: bool,
    ) -> (result: Result<ParseResult, Error>)
        ensures
            final(handler).extends(old(handler).calls()),
            exists|steps: nat|
                (#[trigger] run(encoding, old(self)@, bytes@, steps, whole_data_set)).ends_as(
                    encoding,
                    bytes@,
                    whole_data_set,
                    result,
                    final(self)@,
                    final(handler).calls_since(old(handler).calls()),
                ),
    {
        let ghost start = self@;
        let ghost before = handler.calls();
        let ghost mut steps: nat = 0;
        let mut consumed: usize = 0;
        let mut started: bool = false;
        assert(handler.calls_since(before) =~= Seq::empty());
        assert(events_of(handler.calls_since(before)) =~= Seq::empty());
        loop
            invariant
                start == old(self)@,
                before == old(handler).calls(),
                consumed <= bytes.len(),
                started == (steps > 0),
                handler.extends(before),
                none_cancelled(handler.calls_since(before)),
                run(encoding, start, bytes@, steps, whole_data_set) == (Run {
                    state: self@,
                    consumed: consumed as nat,
                    events: events_of(handler.calls_since(before)),
                    steps,
                }),
            decreases bytes.len() - consumed, rank(self@),
        {
            let ghost here = run(encoding, start, bytes@, steps, whole_data_set);
            let finished = self.is_idle() && if whole_data_set {
                consumed == bytes.len()
            } else {
                started
            };
            if finished {
                let result = Ok(ParseResult::complete(consumed));
                assert(here.ends_as(
                    encoding,
                    bytes@,
                    whole_data_set,
                    result,
                    self@,
                    handler.calls_since(before),
                ));
                return result;
            }
            let rest = slice_subrange(bytes, consumed, bytes.len());
            assert(rest@ == here.rest(bytes@));
            let step = self.step(encoding, rest);
            match step {
                Step::Incomplete => {
                    let result = Ok(ParseResult::incomplete(consumed));
                    assert(here.ends_as(
                        encoding,
                        bytes@,
                        whole_data_set,
                        result,
                        self@,
                        handler.calls_since(before),
                    ));
                    return result;
                },
                Step::Malformed => {
                    let result = Err(Error::MalformedSequence);
                    assert(here.ends_as(
                        encoding,
                        bytes@,
                        whole_data_set,
                        result,
                        self@,
                        handler.calls_since(before),
                    ));
                    return result;
                },
                Step::TooDeep => {
                    let result = Err(Error::TooDeep);
                    assert(here.ends_as(
                        encoding,
                        bytes@,
                        whole_data_set,
                        result,
                        self@,
                        handler.calls_since(before),
                    ));
                    return result;
                },
                Step::Advance(advance) => {
                    proof {
                        lemma_step_advances(encoding, self@, rest@);
                    }
                    let ghost made = handler.calls_since(before);
                    let ghost calls = handler.calls();
                    let control = handler.deliver(&advance.action, rest);
                    proof {
                        let event = advance.action.event(rest@);
                        if event is Some {
                            assert(handler.calls_since(before) =~= made.push(handler.calls().last()));
                            assert(events_of(handler.calls_since(before)) =~= events_of(made).push(
                                event->0,
                            ));
                            assert(handler.calls_since(before).drop_last() =~= made);
                        } else {
                            assert(handler.calls_since(before) =~= made);
                        }
                    }
                    if control == Control::Cancel {
                        let result = Ok(ParseResult::cancelled(consumed));
                        assert(here.ends_as(
                            encoding,
                            bytes@,
                            whole_data_set,
                            result,
                            self@,
                            handler.calls_since(before),
                        ));
                        return result;
                    }
                    self.advance(&advance);
                    consumed = consumed + advance.consumed;
                    started = true;
                    proof {
                        steps = steps + 1;
                        assert(run(encoding, start, bytes@, steps, whole_data_set) == here.extend(
                            advance,
                            bytes@,
                        ));
                    }
                },
            }
        }
    }
}

} // verus!
