use vstd::prelude::*;

use crate::common::{Decimal64, Side};

verus! {

/// The aggregate resting at one price: total quantity and number of orders.
#[derive(Debug, Copy, Clone, PartialEq, Eq, Structural)]
pub struct PriceLevel {
    pub price: Decimal64,
    pub qty: Decimal64,
    pub no_of_orders: u16,
}

/// One change of a ladder, as a listener is told of it.
#[derive(Debug, Copy, Clone, PartialEq, Eq, Structural)]
pub enum LadderEvent {
    /// A level appeared.
    Add(Side, PriceLevel),
    /// A level changed: the level before, then the level after.
    Update(Side, PriceLevel, PriceLevel),
    /// A level left; it is given as it was just before.
    Remove(Side, PriceLevel),
}

/// Receives the changes of a ladder, one call per changed level, in the
/// order in which the levels change.
///
/// `emitted` is the history of what the listener has been told. Each method
/// promises to extend that history by exactly its own event, which is what
/// lets a ladder state which events an operation fires. What a ladder states
/// of the history is proved of every listener that keeps these promises; it
/// is checked for the listeners of this crate, and rests on the author's word
/// for a listener written elsewhere.
pub trait LadderEventListener {
    /// Everything this listener has been told so far, oldest first. A
    /// verified listener defines this to be the history that it keeps; the
    /// default stands for a listener that keeps none to reason about.
    open spec fn emitted(&self) -> Seq<LadderEvent> {
        Seq::empty()
    }

    fn on_add(&mut self, side: Side, level: &PriceLevel)
        ensures
            final(self).emitted() == old(self).emitted().push(LadderEvent::Add(side, *level)),
    ;

    fn on_update(&mut self, side: Side, old_level: &PriceLevel, new_level: &PriceLevel)
        ensures
            final(self).emitted() == old(self).emitted().push(
                LadderEvent::Update(side, *old_level, *new_level),
            ),
    ;

    fn on_remove(&mut self, side: Side, level: &PriceLevel)
        ensures
            final(self).emitted() == old(self).emitted().push(LadderEvent::Remove(side, *level)),
    ;
}

/// A listener that keeps every event it is told, oldest first.
pub struct RecordingListener {
    pub events: Vec<LadderEvent>,
}

impl RecordingListener {
    /// A listener that has heard nothing yet.
    pub fn new() -> (r: Self)
        ensures
            r.events@ == Seq::<LadderEvent>::empty(),
            r.emitted() == Seq::<LadderEvent>::empty(),
    {
        RecordingListener { events: Vec::new() }
    }
}

impl LadderEventListener for RecordingListener {
    open spec fn emitted(&self) -> Seq<LadderEvent> {
        self.events@
    }

    fn on_add(&mut self, side: Side, level: &PriceLevel) {
        self.events.push(LadderEvent::Add(side, *level));
    }

    fn on_update(&mut self, side: Side, old_level: &PriceLevel, new_level: &PriceLevel) {
        self.events.push(LadderEvent::Update(side, *old_level, *new_level));
    }

    fn on_remove(&mut self, side: Side, level: &PriceLevel) {
        self.events.push(LadderEvent::Remove(side, *level));
    }
}

} // verus!
