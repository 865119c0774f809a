use crate::attribute::Attribute;
use crate::encoding::Encoding;
use crate::handler::Event;
use crate::parser::attribute::spec_make_parser;
use crate::parser::attribute::ParserState;
use crate::parser::run::run;
use crate::parser::window;
use crate::parser::Step;
use crate::parser::SubParser;
use vstd::prelude::*;

verus! {

/// A sequence or an item that has started and not yet ended, with the
/// attribute of the sequence.
pub enum Bracket {
    Sequence(Attribute),
    Item(Attribute),
}

/// The sequence or item that a parser stands for, if it stands for one.
pub open spec fn bracket_of(parser: SubParser) -> Option<Bracket> {
    match parser {
        SubParser::Sequence(sequence) => Some(Bracket::Sequence(sequence.attribute)),
        SubParser::SequenceUndefinedLength(sequence) => Some(Bracket::Sequence(sequence.attribute)),
        SubParser::Item(item) => Some(Bracket::Item(item.attribute)),
        SubParser::ItemUndefinedLength(item) => Some(Bracket::Item(item.attribute)),
        _ => None,
    }
}

/// The sequences and items that the parsers of a stack stand for, the
/// innermost last.
pub open spec fn open_brackets(stack: Seq<SubParser>) -> Seq<Bracket>
    decreases stack.len(),
{
    if stack.len() == 0 {
        Seq::empty()
    } else {
        let below = open_brackets(stack.drop_last());
        match bracket_of(stack.last()) {
            Some(bracket) => below.push(bracket),
            None => below,
        }
    }
}

/// What is open after `event`, where `open` was open before it; `None`
/// where the event does not fit.  A sequence may start anywhere.  An item
/// starts directly in its sequence.  An item or a sequence ends only as the
/// innermost of what is open.  Other events open and close nothing.
pub open spec fn nest(open: Seq<Bracket>, event: Event) -> Option<Seq<Bracket>> {
    match event {
        Event::StartSequence(attribute) => Some(open.push(Bracket::Sequence(attribute))),
        Event::StartSequenceItem(attribute) => if open.len() > 0 && open.last()
            == Bracket::Sequence(attribute) {
            Some(open.push(Bracket::Item(attribute)))
        } else {
            None
        },
        Event::EndSequenceItem(attribute) => if open.len() > 0 && open.last() == Bracket::Item(
            attribute,
        ) {
            Some(open.drop_last())
        } else {
            None
        },
        Event::EndSequence(attribute) => if open.len() > 0 && open.last() == Bracket::Sequence(
            attribute,
        ) {
            Some(open.drop_last())
        } else {
            None
        },
        _ => Some(open),
    }
}

/// What is open after the events `events`, in order; `None` where one of
/// them does not fit.
pub open spec fn nest_all(open: Seq<Bracket>, events: Seq<Event>) -> Option<Seq<Bracket>>
    decreases events.len(),
{
    if events.len() == 0 {
        Some(open)
    } else {
        match nest_all(open, events.drop_last()) {
            Some(before) => nest(before, events.last()),
            None => None,
        }
    }
}

/// The number of items among what is open.
pub open spec fn open_items(open: Seq<Bracket>) -> nat
    decreases open.len(),
{
    if open.len() == 0 {
        0
    } else if open.last() is Item {
        open_items(open.drop_last()) + 1
    } else {
        open_items(open.drop_last())
    }
}

/// The number of items that start among the events.
pub open spec fn started_items(events: Seq<Event>) -> nat
    decreases events.len(),
{
    if events.len() == 0 {
        0
    } else if events.last() is StartSequenceItem {
        started_items(events.drop_last()) + 1
    } else {
        started_items(events.drop_last())
    }
}

/// The number of items that end among the events.
pub open spec fn ended_items(events: Seq<Event>) -> nat
    decreases events.len(),
{
    if events.len() == 0 {
        0
    } else if events.last() is EndSequenceItem {
        ended_items(events.drop_last()) + 1
    } else {
        ended_items(events.drop_last())
    }
}

proof fn lemma_open_brackets_push(stack: Seq<SubParser>, parser: SubParser)
    ensures
        open_brackets(stack.push(parser)) == match bracket_of(parser) {
            Some(bracket) => open_brackets(stack).push(bracket),
            None => open_brackets(stack),
        },
{
    assert(stack.push(parser).drop_last() =~= stack);
}

/// A step opens and closes what its event says: the event fits what the
/// stack stands for before the step, and leads to what it stands for after.
pub proof fn lemma_step_nests(encoding: Encoding, state: ParserState, bytes: Seq<u8>)
    ensures
        match state.step(encoding, bytes) {
            Step::Advance(advance) => match advance.action.event(bytes) {
                Some(event) => nest(open_brackets(state.stack), event) == Some(
                    open_brackets(state.apply(advance).stack),
                ),
                None => open_brackets(state.apply(advance).stack) == open_brackets(state.stack),
            },
            _ => true,
        },
{
    reveal(ParserState::step);
    let seen = window(bytes, state.limit);
    match state.step(encoding, bytes) {
        Step::Advance(advance) => {
            let after = state.apply(advance).stack;
            if state.stack.len() == 0 {
                lemma_open_brackets_push(state.stack, SubParser::Pending(advance.action->Element_0));
            } else {
                let top = state.stack.last();
                let below = state.stack.drop_last();
                assert(state.stack =~= below.push(top));
                lemma_open_brackets_push(below, top);
                match advance.change {
                    crate::parser::Change::Pop => {
                        assert(after == below);
                        assert(open_brackets(below).push(bracket_of(top)->0).drop_last()
                            =~= open_brackets(below));
                    },
                    crate::parser::Change::Push(parser) => {
                        lemma_open_brackets_push(state.stack, parser);
                    },
                    crate::parser::Change::Replace(parser) => {
                        lemma_open_brackets_push(below, parser);
                        if top is Pending {
                            let made = spec_make_parser(
                                encoding,
                                top->Pending_0,
                                seen,
                                state.limit,
                            );
                            assert(parser == made);
                        }
                    },
                }
            }
        },
        _ => {},
    }
}

/// The events of a parse are nested: taken in order, each fits what is
/// open when it comes, and together they lead from what the starting state
/// has open to what the state reached has open.
pub proof fn lemma_run_nests(
    encoding: Encoding,
    state: ParserState,
    bytes: Seq<u8>,
    steps: nat,
    whole_data_set: bool,
)
    ensures
        nest_all(
            open_brackets(state.stack),
            run(encoding, state, bytes, steps, whole_data_set).events,
        ) == Some(open_brackets(run(encoding, state, bytes, steps, whole_data_set).state.stack)),
    decreases steps,
{
    if steps > 0 {
        lemma_run_nests(encoding, state, bytes, (steps - 1) as nat, whole_data_set);
        let before = run(encoding, state, bytes, (steps - 1) as nat, whole_data_set);
        let after = run(encoding, state, bytes, steps, whole_data_set);
        lemma_step_nests(encoding, before.state, before.rest(bytes));
        if after.events != before.events {
            assert(after.events.drop_last() =~= before.events);
        }
    }
}

/// Among nested events, the items that start and those that were open
/// before are as many as the items that end and those that are still open.
pub proof fn lemma_nested_items_are_counted(open: Seq<Bracket>, events: Seq<Event>)
    requires
        nest_all(open, events) is Some,
    ensures
        open_items(open) + started_items(events) == open_items(nest_all(open, events)->0)
            + ended_items(events),
    decreases events.len(),
{
    if events.len() > 0 {
        lemma_nested_items_are_counted(open, events.drop_last());
        let before = nest_all(open, events.drop_last())->0;
        match events.last() {
            Event::StartSequence(attribute) => {
                assert(before.push(Bracket::Sequence(attribute)).drop_last() =~= before);
            },
            Event::StartSequenceItem(attribute) => {
                assert(before.push(Bracket::Item(attribute)).drop_last() =~= before);
            },
            _ => {},
        }
    }
}

/// In a parse that starts and ends between two attributes, every sequence
/// and every item that starts also ends, the innermost first, and the items
/// that start are as many as the items that end.
pub proof fn lemma_finished_parse_is_balanced(
    encoding: Encoding,
    bytes: Seq<u8>,
    steps: nat,
    whole_data_set: bool,
)
    requires
        run(encoding, ParserState::initial(), bytes, steps, whole_data_set).state.is_idle(),
    ensures
        nest_all(
            Seq::empty(),
            run(encoding, ParserState::initial(), bytes, steps, whole_data_set).events,
        ) == Some(Seq::<Bracket>::empty()),
        started_items(run(encoding, ParserState::initial(), bytes, steps, whole_data_set).events)
            == ended_items(
            run(encoding, ParserState::initial(), bytes, steps, whole_data_set).events,
        ),
{
    let reached = run(encoding, ParserState::initial(), bytes, steps, whole_data_set);
    lemma_run_nests(encoding, ParserState::initial(), bytes, steps, whole_data_set);
    assert(open_brackets(ParserState::initial().stack) =~= Seq::empty());
    assert(open_brackets(reached.state.stack) =~= Seq::empty());
    lemma_nested_items_are_counted(Seq::empty(), reached.events);
}

} // verus!
