use crate::attribute::Attribute;
use crate::parser::Action;
use vstd::prelude::*;
use vstd::slice::slice_subrange;

verus! {

/// What a handler asks of the parser after an event.
#[derive(Clone, Copy, Debug, PartialEq, Eq, Structural)]
pub enum Control {
    /// Go on.
    Continue,
    /// Go on; the parser treats this as `Continue`.
    Filter,
    /// Stop before the event's bytes are consumed.
    Cancel,
}

/// The sink of a parse.  Every method has a default that does nothing and
/// lets the parse go on.
pub trait Handler {
    /// The header of an attribute was read.
    fn element(&mut self, attribute: &Attribute) -> (control: Control)
        default_ensures
            control == Control::Continue,
    {
        Control::Continue
    }

    /// The value of the attribute last announced by `element`.
    fn value(&mut self, attribute: &Attribute, bytes: &[u8]) {
    }

    /// The attribute is a sequence, and its items follow.
    fn start_sequence(&mut self, attribute: &Attribute) {
    }

    /// An item of the sequence `attribute` starts.
    fn start_sequence_item(&mut self, attribute: &Attribute) {
    }

    /// An item of the sequence `attribute` ends.
    fn end_sequence_item(&mut self, attribute: &Attribute) {
    }

    /// The sequence `attribute` ends.
    fn end_sequence(&mut self, attribute: &Attribute) {
    }

    /// The first item of encapsulated pixel data.
    fn basic_offset_table(&mut self, attribute: &Attribute, bytes: &[u8]) -> (control: Control)
        default_ensures
            control == Control::Continue,
    {
        Control::Continue
    }

    /// A later item of encapsulated pixel data.
    fn pixel_data_fragment(&mut self, attribute: &Attribute, bytes: &[u8]) -> (control: Control)
        default_ensures
            control == Control::Continue,
    {
        Control::Continue
    }
}

/// One call of a handler's method, with the arguments it was given.
pub enum Event {
    Element(Attribute),
    Value(Attribute, Seq<u8>),
    StartSequence(Attribute),
    StartSequenceItem(Attribute),
    EndSequenceItem(Attribute),
    EndSequence(Attribute),
    BasicOffsetTable(Attribute, Seq<u8>),
    PixelDataFragment(Attribute, Seq<u8>),
}

impl Event {
    /// The events whose answer can stop the parse.
    pub open spec fn is_cancellable(self) -> bool {
        self is Element || self is BasicOffsetTable || self is PixelDataFragment
    }
}

/// An event together with the handler's answer to it.  For an event whose
/// method returns nothing the answer is `Continue`.
pub struct Call {
    pub event: Event,
    pub control: Control,
}

/// The events of a sequence of calls, in order.
pub open spec fn events_of(calls: Seq<Call>) -> Seq<Event> {
    calls.map_values(|call: Call| call.event)
}

/// No call of the sequence was answered with `Cancel`.
pub open spec fn none_cancelled(calls: Seq<Call>) -> bool {
    forall|i: int| 0 <= i < calls.len() ==> (#[trigger] calls[i]).control != Control::Cancel
}

/// A handler together with the record of every call made to it through the
/// recorder.  The parser calls the handler only through a recorder, so the
/// record says exactly what the parser delivered and what it was told.
pub struct Recorder<H> {
    handler: H,
    calls: Ghost<Seq<Call>>,
}

impl<H: Handler> Recorder<H> {
    /// The calls made so far, oldest first.
    pub closed spec fn calls(&self) -> Seq<Call> {
        self.calls@
    }

    /// The calls made since the record was `before`.
    pub open spec fn calls_since(&self, before: Seq<Call>) -> Seq<Call> {
        self.calls().skip(before.len() as int)
    }

    /// The record only grows: it still starts with `before`.
    pub open spec fn extends(&self, before: Seq<Call>) -> bool {
        before.is_prefix_of(self.calls())
    }

    /// The handler as it stands.
    pub closed spec fn inner(&self) -> H {
        self.handler
    }

    pub fn new(handler: H) -> (recorder: Self)
        ensures
            recorder.calls() == Seq::<Call>::empty(),
            recorder.inner() == handler,
    {
        Recorder { handler, calls: Ghost(Seq::empty()) }
    }

    pub fn handler(&self) -> (handler: &H)
        ensures
            *handler == self.inner(),
    {
        &self.handler
    }

    pub fn into_handler(self) -> (handler: H)
        ensures
            handler == self.inner(),
    {
        self.handler
    }

    pub fn element(&mut self, attribute: &Attribute) -> (control: Control)
        ensures
            final(self).calls() == old(self).calls().push(
                Call { event: Event::Element(*attribute), control },
            ),
    {
        let control = self.handler.element(attribute);
        self.calls = Ghost(self.calls@.push(Call { event: Event::Element(*attribute), control }));
        control
    }

    pub fn value(&mut self, attribute: &Attribute, bytes: &[u8])
        ensures
            final(self).calls() == old(self).calls().push(
                Call { event: Event::Value(*attribute, bytes@), control: Control::Continue },
            ),
    {
        self.handler.value(attribute, bytes);
        self.calls = Ghost(
            self.calls@.push(
                Call { event: Event::Value(*attribute, bytes@), control: Control::Continue },
            ),
        );
    }

    pub fn start_sequence(&mut self, attribute: &Attribute)
        ensures
            final(self).calls() == old(self).calls().push(
                Call { event: Event::StartSequence(*attribute), control: Control::Continue },
            ),
    {
        self.handler.start_sequence(attribute);
        self.calls = Ghost(
            self.calls@.push(
                Call { event: Event::StartSequence(*attribute), control: Control::Continue },
            ),
        );
    }

    pub fn start_sequence_item(&mut self, attribute: &Attribute)
        ensures
            final(self).calls() == old(self).calls().push(
                Call { event: Event::StartSequenceItem(*attribute), control: Control::Continue },
            ),
    {
        self.handler.start_sequence_item(attribute);
        self.calls = Ghost(
            self.calls@.push(
                Call { event: Event::StartSequenceItem(*attribute), control: Control::Continue },
            ),
        );
    }

    pub fn end_sequence_item(&mut self, attribute: &Attribute)
        ensures
            final(self).calls() == old(self).calls().push(
                Call { event: Event::EndSequenceItem(*attribute), control: Control::Continue },
            ),
    {
        self.handler.end_sequence_item(attribute);
        self.calls = Ghost(
            self.calls@.push(
                Call { event: Event::EndSequenceItem(*attribute), control: Control::Continue },
            ),
        );
    }

    pub fn end_sequence(&mut self, attribute: &Attribute)
        ensures
            final(self).calls() == old(self).calls().push(
                Call { event: Event::EndSequence(*attribute), control: Control::Continue },
            ),
    {
        self.handler.end_sequence(attribute);
        self.calls = Ghost(
            self.calls@.push(
                Call { event: Event::EndSequence(*attribute), control: Control::Continue },
            ),
        );
    }

    pub fn basic_offset_table(&mut self, attribute: &Attribute, bytes: &[u8]) -> (control: Control)
        ensures
            final(self).calls() == old(self).calls().push(
                Call { event: Event::BasicOffsetTable(*attribute, bytes@), control },
            ),
    {
        let control = self.handler.basic_offset_table(attribute, bytes);
        self.calls = Ghost(
            self.calls@.push(Call { event: Event::BasicOffsetTable(*attribute, bytes@), control }),
        );
        control
    }

    pub fn pixel_data_fragment(&mut self, attribute: &Attribute, bytes: &[u8]) -> (control: Control)
        ensures
            final(self).calls() == old(self).calls().push(
                Call { event: Event::PixelDataFragment(*attribute, bytes@), control },
            ),
    {
        let control = self.handler.pixel_data_fragment(attribute, bytes);
        self.calls = Ghost(
            self.calls@.push(Call { event: Event::PixelDataFragment(*attribute, bytes@), control }),
        );
        control
    }

    /// Makes the call that belongs to a step whose input is `bytes`, and
    /// returns the handler's answer; `Continue` where the call has no answer
    /// or the step has no call.
    pub fn deliver(&mut self, action: &Action, bytes: &[u8]) -> (control: Control)
        requires
            action.within(bytes@.len()),
        ensures
            final(self).calls() == match action.event(bytes@) {
                Some(event) => old(self).calls().push(Call { event, control }),
                None => old(self).calls(),
            },
            match action.event(bytes@) {
                Some(event) => !event.is_cancellable() ==> control == Control::Continue,
                None => control == Control::Continue,
            },
    {
        match action {
            Action::Silent => Control::Continue,
            Action::Element(attribute) => self.element(attribute),
            Action::Value { attribute, start, end } => {
                self.value(attribute, slice_subrange(bytes, *start, *end));
                Control::Continue
            },
            Action::StartSequence(attribute) => {
                self.start_sequence(attribute);
                Control::Continue
            },
            Action::StartSequenceItem(attribute) => {
                self.start_sequence_item(attribute);
                Control::Continue
            },
            Action::EndSequenceItem(attribute) => {
                self.end_sequence_item(attribute);
                Control::Continue
            },
            Action::EndSequence(attribute) => {
                self.end_sequence(attribute);
                Control::Continue
            },
            Action::BasicOffsetTable { attribute, start, end } => self.basic_offset_table(
                attribute,
                slice_subrange(bytes, *start, *end),
            ),
            Action::PixelDataFragment { attribute, start, end } => self.pixel_data_fragment(
                attribute,
                slice_subrange(bytes, *start, *end),
            ),
        }
    }
}

} // verus!
