use crate::encoding::Encoding;
use crate::error::Error;
use crate::handler::events_of;
use crate::handler::none_cancelled;
use crate::handler::Call;
use crate::handler::Control;
use crate::handler::Event;
use crate::parser::attribute::ParserState;
use crate::parser::Advance;
use crate::parser::ParseResult;
use crate::parser::Status;
use crate::parser::Step;
use crate::parser::SubParser;
use vstd::prelude::*;

verus! {

/// A parse as far as it has come: the state reached, the number of bytes
/// consumed, the events delivered, and the number of steps taken.
pub struct Run {
    pub state: ParserState,
    pub consumed: nat,
    pub events: Seq<Event>,
    pub steps: nat,
}

impl Run {
    /// The parse that starts in `state` and has done nothing yet.
    pub open spec fn start(state: ParserState) -> Run {
        Run { state, consumed: 0, events: Seq::empty(), steps: 0 }
    }

    /// What is left of the input `bytes`.
    pub open spec fn rest(self, bytes: Seq<u8>) -> Seq<u8> {
        bytes.skip(self.consumed as int)
    }

    /// The next step, on what is left of `bytes`.
    pub open spec fn next(self, encoding: Encoding, bytes: Seq<u8>) -> Step {
        self.state.step(encoding, self.rest(bytes))
    }

    /// The parse after the step `advance`.
    pub open spec fn extend(self, advance: Advance, bytes: Seq<u8>) -> Run {
        Run {
            state: self.state.apply(advance),
            consumed: self.consumed + advance.consumed as nat,
            events: match advance.action.event(self.rest(bytes)) {
                Some(event) => self.events.push(event),
                None => self.events,
            },
            steps: self.steps + 1,
        }
    }

    /// This parse, followed by the parse `next` of what it left of the
    /// input.
    pub open spec fn followed_by(self, next: Run) -> Run {
        Run {
            state: next.state,
            consumed: self.consumed + next.consumed,
            events: self.events + next.events,
            steps: self.steps + next.steps,
        }
    }

    /// The parse has done what it was asked to do.  A parse of one
    /// attribute has, once it has taken a step and stands between two
    /// attributes; a parse of a whole data set, once it stands between two
    /// attributes at the end of the input.
    pub open spec fn is_finished(self, bytes: Seq<u8>, whole_data_set: bool) -> bool {
        &&& self.state.is_idle()
        &&& if whole_data_set {
            self.consumed == bytes.len()
        } else {
            self.steps > 0
        }
    }

    /// The parse ends here with `result`, leaving the parser in `state`,
    /// after the calls `made` to the handler.
    ///
    /// - `Complete`: the parse is finished.
    /// - `Incomplete`: the next step needs more input.
    /// - `Cancelled`: the call of the next step was made and answered with
    ///   `Cancel`; the step was not taken.
    /// - An error: the next step cannot be taken, for the reason given.
    ///
    /// In each case the events of the steps taken were delivered in order,
    /// none of them was answered with `Cancel`, and nothing else was
    /// delivered.
    pub open spec fn ends_as(
        self,
        encoding: Encoding,
        bytes: Seq<u8>,
        whole_data_set: bool,
        result: Result<ParseResult, Error>,
        state: ParserState,
        made: Seq<Call>,
    ) -> bool {
        &&& state == self.state
        &&& self.consumed <= bytes.len()
        &&& match result {
            Ok(outcome) => {
                &&& outcome.bytes_consumed == self.consumed
                &&& match outcome.status {
                    Status::Complete => {
                        &&& self.is_finished(bytes, whole_data_set)
                        &&& events_of(made) == self.events
                        &&& none_cancelled(made)
                    },
                    Status::Incomplete => {
                        &&& !self.is_finished(bytes, whole_data_set)
                        &&& self.next(encoding, bytes) is Incomplete
                        &&& events_of(made) == self.events
                        &&& none_cancelled(made)
                    },
                    Status::Cancelled => {
                        &&& !self.is_finished(bytes, whole_data_set)
                        &&& match self.next(encoding, bytes) {
                            Step::Advance(advance) => match advance.action.event(self.rest(bytes)) {
                                Some(event) => {
                                    &&& made.len() > 0
                                    &&& events_of(made) == self.events.push(event)
                                    &&& none_cancelled(made.drop_last())
                                    &&& made.last().control == Control::Cancel
                                },
                                None => false,
                            },
                            _ => false,
                        }
                    },
                }
            },
            Err(error) => {
                &&& !self.is_finished(bytes, whole_data_set)
                &&& events_of(made) == self.events
                &&& none_cancelled(made)
                &&& match self.next(encoding, bytes) {
                    Step::Malformed => error == Error::MalformedSequence,
                    Step::TooDeep => error == Error::TooDeep,
                    _ => false,
                }
            },
        }
    }
}

/// The parse that starts in `state` on the input `bytes`, after `steps`
/// steps, or after as many as can be taken.  No step is taken once the
/// parse is finished, nor where the next step is not at hand.
pub open spec fn run(
    encoding: Encoding,
    state: ParserState,
    bytes: Seq<u8>,
    steps: nat,
    whole_data_set: bool,
) -> Run
    decreases steps,
{
    if steps == 0 {
        Run::start(state)
    } else {
        let before = run(encoding, state, bytes, (steps - 1) as nat, whole_data_set);
        if before.is_finished(bytes, whole_data_set) {
            before
        } else {
            match before.next(encoding, bytes) {
                Step::Advance(advance) => before.extend(advance, bytes),
                _ => before,
            }
        }
    }
}

/// A measure of the parsers that have begun, which a step that consumes
/// nothing makes smaller.
pub open spec fn rank(state: ParserState) -> nat {
    if state.stack.len() > 0 && state.stack.last() is Pending {
        2 * state.stack.len() + 1
    } else {
        2 * state.stack.len()
    }
}

/// A step consumes no more than the input holds, hands over bytes of the
/// input only, and, where it consumes nothing, ends a parser or chooses the
/// parser of a pending value.
pub proof fn lemma_step_advances(encoding: Encoding, state: ParserState, bytes: Seq<u8>)
    requires
        bytes.len() <= usize::MAX,
    ensures
        match state.step(encoding, bytes) {
            Step::Advance(advance) => {
                &&& advance.consumed <= bytes.len()
                &&& advance.action.within(bytes.len())
                &&& advance.consumed == 0 ==> rank(state.apply(advance)) < rank(state)
            },
            _ => true,
        },
{
    reveal(ParserState::step);
    let seen = crate::parser::window(bytes, state.limit);
    crate::parser::data_undefined_length::lemma_first_delimiter(encoding, seen, 0);
    if state.stack.len() > 0 {
        let top = state.stack.last();
        match top {
            SubParser::Pending(attribute) => {
                let parser = crate::parser::attribute::spec_make_parser(
                    encoding,
                    attribute,
                    seen,
                    state.limit,
                );
                assert(!(parser is Pending));
            },
            _ => {},
        }
    }
}

} // verus!
