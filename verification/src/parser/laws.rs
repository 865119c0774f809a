use crate::attribute::Attribute;
use crate::encoding::Encoding;
use crate::parser::attribute::needs_look_ahead;
use crate::parser::attribute::spec_header_step;
use crate::parser::attribute::spec_is_sequence;
use crate::parser::attribute::spec_parse_attribute;
use crate::parser::attribute::spec_value_step;
use crate::parser::encapsulated_pixel_data::EncapsulatedPixelDataParser;
use crate::parser::sequence::spec_item_step;
use crate::parser::sequence_undefined_length::ItemUndefinedLengthParser;
use crate::parser::Action;
use crate::parser::SubParser;
use crate::parser::attribute::ParserState;
use crate::parser::data_undefined_length::delimiter_at;
use crate::parser::data_undefined_length::first_delimiter;
use crate::parser::region_at_hand;
use crate::parser::run::lemma_step_advances;
use crate::parser::run::run;
use crate::parser::run::Run;
use crate::parser::window;
use crate::parser::Step;
use vstd::prelude::*;

verus! {

/// A header that can be read from part of the input is the header that is
/// read from all of it.
pub proof fn lemma_parse_attribute_prefix(encoding: Encoding, part: Seq<u8>, whole: Seq<u8>)
    requires
        part.is_prefix_of(whole),
        spec_parse_attribute(encoding, part) is Ok,
    ensures
        spec_parse_attribute(encoding, whole) == spec_parse_attribute(encoding, part),
{
    assert forall|i: int| 0 <= i < part.len() implies part[i] == whole[i] by {
        assert(part[i] == whole.subrange(0, part.len() as int)[i]);
    }
}

/// A delimiter that is found in part of the input is the first delimiter
/// of all of it.
pub proof fn lemma_first_delimiter_prefix(
    encoding: Encoding,
    part: Seq<u8>,
    whole: Seq<u8>,
    from: nat,
)
    requires
        part.is_prefix_of(whole),
        first_delimiter(encoding, part, from) is Some,
    ensures
        first_delimiter(encoding, whole, from) == first_delimiter(encoding, part, from),
    decreases part.len() - from,
{
    assert forall|i: int| 0 <= i < part.len() implies part[i] == whole[i] by {
        assert(part[i] == whole.subrange(0, part.len() as int)[i]);
    }
    if from + 8 <= part.len() {
        assert(delimiter_at(encoding, part, from as int) == delimiter_at(
            encoding,
            whole,
            from as int,
        ));
        if !delimiter_at(encoding, part, from as int) {
            lemma_first_delimiter_prefix(encoding, part, whole, from + 1);
        }
    }
}

/// Part of the input agrees with all of it as far as it goes.
proof fn lemma_prefix_agrees(part: Seq<u8>, whole: Seq<u8>)
    requires
        part.is_prefix_of(whole),
    ensures
        part.len() <= whole.len(),
        forall|i: int| 0 <= i < part.len() ==> part[i] == whole[i],
{
    assert forall|i: int| 0 <= i < part.len() implies part[i] == whole[i] by {
        assert(part[i] == whole.subrange(0, part.len() as int)[i]);
    }
}

/// The bytes that an action hands over are the same bytes of part of the
/// input and of all of it.
pub proof fn lemma_event_prefix(action: Action, part: Seq<u8>, whole: Seq<u8>)
    requires
        part.is_prefix_of(whole),
        action.within(part.len()),
    ensures
        action.event(whole) == action.event(part),
{
    lemma_prefix_agrees(part, whole);
    match action {
        Action::Value { start, end, .. } => {
            assert(whole.subrange(start as int, end as int) =~= part.subrange(
                start as int,
                end as int,
            ));
        },
        Action::BasicOffsetTable { start, end, .. } => {
            assert(whole.subrange(start as int, end as int) =~= part.subrange(
                start as int,
                end as int,
            ));
        },
        Action::PixelDataFragment { start, end, .. } => {
            assert(whole.subrange(start as int, end as int) =~= part.subrange(
                start as int,
                end as int,
            ));
        },
        _ => {},
    }
}

proof fn lemma_header_step_prefix(
    encoding: Encoding,
    part: Seq<u8>,
    whole: Seq<u8>,
    limit: Option<u32>,
    depth: nat,
)
    requires
        part.is_prefix_of(whole),
        !(spec_header_step(encoding, part, limit, depth) is Incomplete),
    ensures
        spec_header_step(encoding, whole, limit, depth) == spec_header_step(
            encoding,
            part,
            limit,
            depth,
        ),
{
    lemma_parse_attribute_prefix(encoding, part, whole);
}

proof fn lemma_item_step_prefix(
    encoding: Encoding,
    part: Seq<u8>,
    whole: Seq<u8>,
    limit: Option<u32>,
    depth: nat,
    attribute: Attribute,
)
    requires
        part.is_prefix_of(whole),
        !(spec_item_step(encoding, part, limit, depth, attribute) is Incomplete),
    ensures
        spec_item_step(encoding, whole, limit, depth, attribute) == spec_item_step(
            encoding,
            part,
            limit,
            depth,
            attribute,
        ),
{
    lemma_prefix_agrees(part, whole);
}

proof fn lemma_value_step_prefix(
    encoding: Encoding,
    attribute: Attribute,
    part: Seq<u8>,
    whole: Seq<u8>,
    limit: Option<u32>,
)
    requires
        part.is_prefix_of(whole),
        !(spec_value_step(encoding, attribute, part, limit) is Incomplete),
    ensures
        spec_value_step(encoding, attribute, whole, limit) == spec_value_step(
            encoding,
            attribute,
            part,
            limit,
        ),
{
    lemma_prefix_agrees(part, whole);
    if needs_look_ahead(attribute) {
        assert(spec_is_sequence(encoding, part) == spec_is_sequence(encoding, whole));
        if !spec_is_sequence(encoding, part) {
            lemma_first_delimiter_prefix(encoding, part, whole, 0);
        }
    }
}

proof fn lemma_pixel_data_step_prefix(
    parser: EncapsulatedPixelDataParser,
    encoding: Encoding,
    part: Seq<u8>,
    whole: Seq<u8>,
    limit: Option<u32>,
)
    requires
        part.is_prefix_of(whole),
        !(parser.spec_step(encoding, part, limit) is Incomplete),
    ensures
        parser.spec_step(encoding, whole, limit) == parser.spec_step(encoding, part, limit),
{
    lemma_prefix_agrees(part, whole);
}

proof fn lemma_item_undefined_length_step_prefix(
    parser: ItemUndefinedLengthParser,
    encoding: Encoding,
    part: Seq<u8>,
    whole: Seq<u8>,
    limit: Option<u32>,
    depth: nat,
)
    requires
        part.is_prefix_of(whole),
        !(parser.spec_step(encoding, part, limit, depth) is Incomplete),
    ensures
        parser.spec_step(encoding, whole, limit, depth) == parser.spec_step(
            encoding,
            part,
            limit,
            depth,
        ),
{
    lemma_parse_attribute_prefix(encoding, part, whole);
}

/// More input does not change the step of a parser: a step that is decided
/// on part of the input is the step on all of it.
pub proof fn lemma_sub_parser_step_prefix(
    parser: SubParser,
    encoding: Encoding,
    part: Seq<u8>,
    whole: Seq<u8>,
    limit: Option<u32>,
    depth: nat,
)
    requires
        part.is_prefix_of(whole),
        !(parser.spec_step(encoding, part, limit, depth) is Incomplete),
    ensures
        parser.spec_step(encoding, whole, limit, depth) == parser.spec_step(
            encoding,
            part,
            limit,
            depth,
        ),
{
    lemma_prefix_agrees(part, whole);
    match parser {
        SubParser::Pending(attribute) => {
            lemma_value_step_prefix(encoding, attribute, part, whole, limit);
        },
        SubParser::Data(_) => {},
        SubParser::DataUndefinedLength(_) => {
            lemma_first_delimiter_prefix(encoding, part, whole, 0);
        },
        SubParser::Sequence(sequence) => {
            if limit != Some(0u32) {
                lemma_item_step_prefix(encoding, part, whole, limit, depth, sequence.attribute);
            }
        },
        SubParser::SequenceUndefinedLength(sequence) => {
            if !encoding.tag_at(part, 0).spec_is_sequence_delimitation() {
                lemma_item_step_prefix(encoding, part, whole, limit, depth, sequence.attribute);
            }
        },
        SubParser::Item(_) => {
            if limit != Some(0u32) {
                lemma_header_step_prefix(encoding, part, whole, limit, depth);
            }
        },
        SubParser::ItemUndefinedLength(item) => {
            lemma_item_undefined_length_step_prefix(item, encoding, part, whole, limit, depth);
        },
        SubParser::EncapsulatedPixelData(pixel_data) => {
            lemma_pixel_data_step_prefix(pixel_data, encoding, part, whole, limit);
        },
    }
}

/// More input does not change a step: a step that is decided on part of
/// the input is the step on all of it, and delivers the same event.
pub proof fn lemma_step_prefix(encoding: Encoding, state: ParserState, part: Seq<u8>, whole: Seq<u8>)
    requires
        part.is_prefix_of(whole),
        whole.len() <= usize::MAX,
        !(state.step(encoding, part) is Incomplete),
    ensures
        state.step(encoding, whole) == state.step(encoding, part),
        match state.step(encoding, part) {
            Step::Advance(advance) => advance.action.event(whole) == advance.action.event(part),
            _ => true,
        },
{
    let seen_part = window(part, state.limit);
    let seen_whole = window(whole, state.limit);
    lemma_prefix_agrees(part, whole);
    assert(state.step(encoding, whole) == state.step(encoding, part)) by {
        reveal(ParserState::step);
        if region_at_hand(part, state.limit) {
            assert(seen_part =~= seen_whole);
        } else {
            assert(seen_part == part);
            assert(seen_part.is_prefix_of(seen_whole)) by {
                assert(seen_part =~= seen_whole.subrange(0, seen_part.len() as int));
            }
            if state.stack.len() == 0 {
                lemma_header_step_prefix(encoding, seen_part, seen_whole, state.limit, 0);
            } else {
                lemma_sub_parser_step_prefix(
                    state.stack.last(),
                    encoding,
                    seen_part,
                    seen_whole,
                    state.limit,
                    state.stack.len(),
                );
            }
        }
    }
    lemma_step_advances(encoding, state, part);
    match state.step(encoding, part) {
        Step::Advance(advance) => {
            lemma_event_prefix(advance.action, part, whole);
        },
        _ => {},
    }
}

/// A parse that is fed its input byte by byte: what it has done, and how
/// many bytes of the input it has been given.
pub struct Feed {
    pub run: Run,
    pub available: nat,
}

/// The parse of `bytes` after `rounds` rounds of a driver that holds no
/// byte at first and in each round either takes the next step, on the bytes
/// it holds, or, where that step needs more input, takes one more byte.
pub open spec fn fed(
    encoding: Encoding,
    state: ParserState,
    bytes: Seq<u8>,
    rounds: nat,
    whole_data_set: bool,
) -> Feed
    decreases rounds,
{
    if rounds == 0 {
        Feed { run: Run::start(state), available: 0 }
    } else {
        let before = fed(encoding, state, bytes, (rounds - 1) as nat, whole_data_set);
        let held = bytes.take(before.available as int);
        if before.run.is_finished(bytes, whole_data_set) {
            before
        } else {
            match before.run.next(encoding, held) {
                Step::Advance(advance) => Feed {
                    run: before.run.extend(advance, held),
                    available: before.available,
                },
                Step::Incomplete => Feed {
                    run: before.run,
                    available: if before.available < bytes.len() {
                        before.available + 1
                    } else {
                        before.available
                    },
                },
                _ => before,
            }
        }
    }
}

/// A parse consumes no more than its input holds, and counts its steps.
pub proof fn lemma_run_bounds(
    encoding: Encoding,
    state: ParserState,
    bytes: Seq<u8>,
    steps: nat,
    whole_data_set: bool,
)
    requires
        bytes.len() <= usize::MAX,
    ensures
        run(encoding, state, bytes, steps, whole_data_set).consumed <= bytes.len(),
        run(encoding, state, bytes, steps, whole_data_set).steps <= steps,
    decreases steps,
{
    if steps > 0 {
        lemma_run_bounds(encoding, state, bytes, (steps - 1) as nat, whole_data_set);
        let before = run(encoding, state, bytes, (steps - 1) as nat, whole_data_set);
        lemma_step_advances(encoding, before.state, before.rest(bytes));
    }
}

/// Feeding the input byte by byte changes nothing: after any number of
/// rounds, what a parse fed byte by byte has done is what the parse of the
/// whole input does in its first steps, as many as the rounds in which a
/// step was taken.  It has the same state, has consumed the same number of
/// bytes and has delivered the same events in the same order.
pub proof fn lemma_fed_is_run(
    encoding: Encoding,
    state: ParserState,
    bytes: Seq<u8>,
    rounds: nat,
    whole_data_set: bool,
) -> (steps: nat)
    requires
        bytes.len() <= usize::MAX,
    ensures
        steps <= rounds,
        fed(encoding, state, bytes, rounds, whole_data_set).run == run(
            encoding,
            state,
            bytes,
            steps,
            whole_data_set,
        ),
        fed(encoding, state, bytes, rounds, whole_data_set).run.consumed <= fed(
            encoding,
            state,
            bytes,
            rounds,
            whole_data_set,
        ).available <= bytes.len(),
    decreases rounds,
{
    if rounds == 0 {
        0
    } else {
        let earlier = lemma_fed_is_run(encoding, state, bytes, (rounds - 1) as nat, whole_data_set);
        let before = fed(encoding, state, bytes, (rounds - 1) as nat, whole_data_set);
        let held = bytes.take(before.available as int);
        if before.run.is_finished(bytes, whole_data_set) {
            earlier
        } else {
            let part = before.run.rest(held);
            let whole = before.run.rest(bytes);
            assert(part.is_prefix_of(whole)) by {
                assert(part =~= whole.subrange(0, part.len() as int));
            }
            match before.run.next(encoding, held) {
                Step::Advance(advance) => {
                    lemma_step_prefix(encoding, before.run.state, part, whole);
                    lemma_step_advances(encoding, before.run.state, part);
                    assert(run(encoding, state, bytes, earlier + 1, whole_data_set)
                        == before.run.extend(advance, bytes));
                    earlier + 1
                },
                _ => earlier,
            }
        }
    }
}

/// While the next step of a parse fed byte by byte needs more input than
/// the driver holds, and the whole input has an answer, the driver takes
/// bytes until it holds enough, and then takes the step of the whole input.
proof fn lemma_fed_takes_step(
    encoding: Encoding,
    state: ParserState,
    bytes: Seq<u8>,
    rounds: nat,
    whole_data_set: bool,
) -> (later: nat)
    requires
        bytes.len() <= usize::MAX,
        !fed(encoding, state, bytes, rounds, whole_data_set).run.is_finished(bytes, whole_data_set),
        fed(encoding, state, bytes, rounds, whole_data_set).run.next(encoding, bytes) is Advance,
    ensures
        later > rounds,
        fed(encoding, state, bytes, later, whole_data_set).run == fed(
            encoding,
            state,
            bytes,
            rounds,
            whole_data_set,
        ).run.extend(
            fed(encoding, state, bytes, rounds, whole_data_set).run.next(encoding, bytes)->Advance_0,
            bytes,
        ),
    decreases bytes.len() - fed(encoding, state, bytes, rounds, whole_data_set).available,
{
    let steps = lemma_fed_is_run(encoding, state, bytes, rounds, whole_data_set);
    let before = fed(encoding, state, bytes, rounds, whole_data_set);
    let held = bytes.take(before.available as int);
    let part = before.run.rest(held);
    let whole = before.run.rest(bytes);
    assert(part.is_prefix_of(whole)) by {
        assert(part =~= whole.subrange(0, part.len() as int));
    }
    let after = fed(encoding, state, bytes, rounds + 1, whole_data_set);
    assert(fed(encoding, state, bytes, (rounds + 1 - 1) as nat, whole_data_set) == before);
    if before.run.next(encoding, held) is Incomplete {
        if before.available < bytes.len() {
            assert(after.run == before.run);
            assert(after.available == before.available + 1);
            lemma_fed_takes_step(encoding, state, bytes, rounds + 1, whole_data_set)
        } else {
            assert(held =~= bytes);
            rounds
        }
    } else {
        lemma_step_prefix(encoding, before.run.state, part, whole);
        rounds + 1
    }
}

/// Feeding the input byte by byte loses nothing: whatever the parse of the
/// whole input has done after some steps, a parse fed byte by byte has done
/// after enough rounds.
pub proof fn lemma_run_is_fed(
    encoding: Encoding,
    state: ParserState,
    bytes: Seq<u8>,
    steps: nat,
    whole_data_set: bool,
) -> (rounds: nat)
    requires
        bytes.len() <= usize::MAX,
    ensures
        fed(encoding, state, bytes, rounds, whole_data_set).run == run(
            encoding,
            state,
            bytes,
            steps,
            whole_data_set,
        ),
    decreases steps,
{
    if steps == 0 {
        0
    } else {
        let earlier = lemma_run_is_fed(encoding, state, bytes, (steps - 1) as nat, whole_data_set);
        let before = run(encoding, state, bytes, (steps - 1) as nat, whole_data_set);
        if before.is_finished(bytes, whole_data_set) {
            earlier
        } else if before.next(encoding, bytes) is Advance {
            lemma_fed_takes_step(encoding, state, bytes, earlier, whole_data_set)
        } else {
            earlier
        }
    }
}

/// A parse that has taken no step has done nothing.
pub proof fn lemma_run_without_steps(
    encoding: Encoding,
    state: ParserState,
    bytes: Seq<u8>,
    steps: nat,
    whole_data_set: bool,
)
    requires
        run(encoding, state, bytes, steps, whole_data_set).steps == 0,
    ensures
        run(encoding, state, bytes, steps, whole_data_set) == Run::start(state),
    decreases steps,
{
    if steps > 0 {
        let before = run(encoding, state, bytes, (steps - 1) as nat, whole_data_set);
        if run(encoding, state, bytes, steps, whole_data_set) == before {
            lemma_run_without_steps(encoding, state, bytes, (steps - 1) as nat, whole_data_set);
        }
    }
}

/// More input does not change what a parse has done: where a parse takes
/// `steps` steps on part of the input, the parse of all of it takes the
/// same steps, and reaches the same state with the same bytes consumed and
/// the same events delivered.
pub proof fn lemma_run_prefix(
    encoding: Encoding,
    state: ParserState,
    part: Seq<u8>,
    whole: Seq<u8>,
    steps: nat,
    whole_data_set: bool,
)
    requires
        part.is_prefix_of(whole),
        whole.len() <= usize::MAX,
        run(encoding, state, part, steps, whole_data_set).steps == steps,
    ensures
        run(encoding, state, whole, steps, whole_data_set) == run(
            encoding,
            state,
            part,
            steps,
            whole_data_set,
        ),
    decreases steps,
{
    if steps > 0 {
        let earlier = (steps - 1) as nat;
        let before = run(encoding, state, part, earlier, whole_data_set);
        lemma_run_bounds(encoding, state, part, earlier, whole_data_set);
        lemma_run_prefix(encoding, state, part, whole, earlier, whole_data_set);
        let part_rest = before.rest(part);
        let whole_rest = before.rest(whole);
        assert(part_rest.is_prefix_of(whole_rest)) by {
            assert(part_rest =~= whole_rest.subrange(0, part_rest.len() as int));
        }
        lemma_step_prefix(encoding, before.state, part_rest, whole_rest);
    }
}

/// A parse can be taken up where it stopped: the parse after `first` and
/// then `second` more steps is the parse after `first` steps, followed by
/// the parse that starts in the state reached, on the input that is left,
/// after `second` steps.
pub proof fn lemma_run_resumes(
    encoding: Encoding,
    state: ParserState,
    bytes: Seq<u8>,
    first: nat,
    second: nat,
    whole_data_set: bool,
)
    requires
        bytes.len() <= usize::MAX,
        !run(encoding, state, bytes, first, whole_data_set).is_finished(bytes, whole_data_set),
    ensures
        ({
            let stopped = run(encoding, state, bytes, first, whole_data_set);
            run(encoding, state, bytes, first + second, whole_data_set) == stopped.followed_by(
                run(encoding, stopped.state, stopped.rest(bytes), second, whole_data_set),
            )
        }),
    decreases second,
{
    let stopped = run(encoding, state, bytes, first, whole_data_set);
    let left = stopped.rest(bytes);
    lemma_run_bounds(encoding, state, bytes, first, whole_data_set);
    if second == 0 {
        assert(stopped.events + Seq::<crate::handler::Event>::empty() =~= stopped.events);
    } else {
        let earlier = (second - 1) as nat;
        lemma_run_resumes(encoding, state, bytes, first, earlier, whole_data_set);
        let joined = run(encoding, state, bytes, first + earlier, whole_data_set);
        let resumed = run(encoding, stopped.state, left, earlier, whole_data_set);
        lemma_run_bounds(encoding, stopped.state, left, earlier, whole_data_set);
        assert(joined.rest(bytes) =~= resumed.rest(left));
        if resumed.steps == 0 {
            lemma_run_without_steps(encoding, stopped.state, left, earlier, whole_data_set);
        }
        assert(joined.is_finished(bytes, whole_data_set) == resumed.is_finished(
            left,
            whole_data_set,
        ));
        let after = run(encoding, stopped.state, left, second, whole_data_set);
        assert(run(encoding, state, bytes, first + second, whole_data_set).events =~= (
            stopped.events + after.events));
    }
}

/// A parse is the parse after as many steps as it has taken: steps that
/// were asked for and not taken change nothing.
pub proof fn lemma_run_counts(
    encoding: Encoding,
    state: ParserState,
    bytes: Seq<u8>,
    steps: nat,
    whole_data_set: bool,
)
    ensures
        run(
            encoding,
            state,
            bytes,
            run(encoding, state, bytes, steps, whole_data_set).steps,
            whole_data_set,
        ) == run(encoding, state, bytes, steps, whole_data_set),
    decreases steps,
{
    if steps > 0 {
        lemma_run_counts(encoding, state, bytes, (steps - 1) as nat, whole_data_set);
    }
}

/// What a parse of one attribute does when it is taken up on part of what
/// is left of its input.
///
/// Let a parse of `bytes` have taken `steps` steps, and let it go on for
/// `more` steps on the bytes up to `available` only.  Then what it has done
/// on the part, after what it had done before, is what the parse of all of
/// `bytes` does in as many steps.  Its next step on the part, where that
/// does not wait for input, is the next step on all of `bytes`, with the
/// same event; and where the part reaches the end of `bytes`, the next step
/// is the same in any case.
pub proof fn lemma_parse_of_part(
    encoding: Encoding,
    start: ParserState,
    bytes: Seq<u8>,
    steps: nat,
    available: nat,
    more: nat,
) -> (total: nat)
    requires
        bytes.len() <= usize::MAX,
        run(encoding, start, bytes, steps, false).steps == steps,
        !run(encoding, start, bytes, steps, false).is_finished(bytes, false),
        run(encoding, start, bytes, steps, false).consumed <= available <= bytes.len(),
    ensures
        ({
            let here = run(encoding, start, bytes, steps, false);
            let part = bytes.subrange(here.consumed as int, available as int);
            let inner = run(encoding, here.state, part, more, false);
            let whole = run(encoding, start, bytes, total, false);
            &&& total == steps + inner.steps
            &&& whole == here.followed_by(inner)
            &&& whole.consumed <= available
            &&& whole.is_finished(bytes, false) == inner.is_finished(part, false)
            &&& available == bytes.len() ==> whole.next(encoding, bytes) == inner.next(
                encoding,
                part,
            )
            &&& !(inner.next(encoding, part) is Incomplete) ==> whole.next(encoding, bytes)
                == inner.next(encoding, part)
            &&& match inner.next(encoding, part) {
                Step::Advance(advance) => advance.action.event(whole.rest(bytes))
                    == advance.action.event(inner.rest(part)),
                _ => true,
            }
        }),
{
    let here = run(encoding, start, bytes, steps, false);
    let part = bytes.subrange(here.consumed as int, available as int);
    let left = here.rest(bytes);
    let asked = run(encoding, here.state, part, more, false);
    let taken = asked.steps;
    lemma_run_counts(encoding, here.state, part, more, false);
    let inner = run(encoding, here.state, part, taken, false);
    assert(inner == asked);
    assert(part.is_prefix_of(left)) by {
        assert(part =~= left.subrange(0, part.len() as int));
    }
    lemma_run_prefix(encoding, here.state, part, left, taken, false);
    lemma_run_resumes(encoding, start, bytes, steps, taken, false);
    lemma_run_bounds(encoding, here.state, part, taken, false);
    let total = steps + taken;
    let whole = run(encoding, start, bytes, total, false);
    assert(whole == here.followed_by(inner));
    if inner.steps == 0 {
        lemma_run_without_steps(encoding, here.state, part, taken, false);
    }
    let part_rest = inner.rest(part);
    let whole_rest = whole.rest(bytes);
    assert(part_rest.is_prefix_of(whole_rest)) by {
        assert(part_rest =~= whole_rest.subrange(0, part_rest.len() as int));
    }
    if available == bytes.len() {
        assert(part_rest =~= whole_rest);
    }
    if !(inner.next(encoding, part) is Incomplete) {
        lemma_step_prefix(encoding, inner.state, part_rest, whole_rest);
    }
    total
}

} // verus!
