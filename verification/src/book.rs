use vstd::prelude::*;

use crate::common::{Decimal64, LadderError, Side};
use crate::ladder::{Ladder, SearchPolicy};
use crate::level::{LadderEventListener, PriceLevel};
use crate::model::{prune_events, pruned, trade_events, traded, update_events, updated};

verus! {

/// A bid ladder and an ask ladder that report to one listener and open and
/// close their batches together.
pub struct Book<L: LadderEventListener> {
    bids: Ladder,
    asks: Ladder,
    listener: L,
}

impl<L: LadderEventListener> Book<L> {
    /// The bid ladder.
    pub closed spec fn spec_bids(&self) -> Ladder {
        self.bids
    }

    /// The ask ladder.
    pub closed spec fn spec_asks(&self) -> Ladder {
        self.asks
    }

    /// The listener that both ladders report to.
    pub closed spec fn spec_listener(&self) -> L {
        self.listener
    }

    /// Whether a batch is open.
    pub open spec fn spec_in_batch(&self) -> bool {
        self.spec_bids().spec_in_batch()
    }

    /// Both ladders are well-formed, each keeps its own side, and they are
    /// in or out of a batch together.
    pub open spec fn wf(&self) -> bool {
        &&& self.spec_bids().wf()
        &&& self.spec_asks().wf()
        &&& self.spec_bids().spec_side() == Side::BUY
        &&& self.spec_asks().spec_side() == Side::SELL
        &&& self.spec_bids().spec_in_batch() == self.spec_asks().spec_in_batch()
    }

    /// An empty book that reports to `event_listener` and looks prices up by
    /// binary search.
    pub fn new(event_listener: L) -> (r: Self)
        ensures
            r.wf(),
            !r.spec_in_batch(),
            r.spec_bids()@ == Seq::<PriceLevel>::empty(),
            r.spec_asks()@ == Seq::<PriceLevel>::empty(),
            r.spec_bids().spec_policy() == SearchPolicy::Binary,
            r.spec_asks().spec_policy() == SearchPolicy::Binary,
            r.spec_listener() == event_listener,
    {
        Book::with_policy(event_listener, SearchPolicy::Binary)
    }

    /// An empty book whose ladders look prices up by `policy`.
    pub fn with_policy(event_listener: L, policy: SearchPolicy) -> (r: Self)
        ensures
            r.wf(),
            !r.spec_in_batch(),
            r.spec_bids()@ == Seq::<PriceLevel>::empty(),
            r.spec_asks()@ == Seq::<PriceLevel>::empty(),
            r.spec_bids().spec_policy() == policy,
            r.spec_asks().spec_policy() == policy,
            r.spec_listener() == event_listener,
    {
        Book {
            bids: Ladder::new(Side::BUY, policy),
            asks: Ladder::new(Side::SELL, policy),
            listener: event_listener,
        }
    }

    /// The bid ladder, to read.
    pub fn bids(&self) -> (r: &Ladder)
        ensures
            *r == self.spec_bids(),
    {
        &self.bids
    }

    /// The ask ladder, to read.
    pub fn asks(&self) -> (r: &Ladder)
        ensures
            *r == self.spec_asks(),
    {
        &self.asks
    }

    /// The listener, to read.
    pub fn listener(&self) -> (r: &L)
        ensures
            *r == self.spec_listener(),
    {
        &self.listener
    }

    /// Gives the listener back, with all that it has heard.
    pub fn into_listener(self) -> (r: L)
        ensures
            r == self.spec_listener(),
    {
        self.listener
    }

    /// Opens a batch on both ladders. Refused, with nothing changed, inside
    /// a batch.
    pub fn begin(&mut self) -> (r: Result<(), LadderError>)
        requires
            old(self).wf(),
        ensures
            r is Ok <==> !old(self).spec_in_batch(),
            r is Err ==> *final(self) == *old(self),
            r is Ok ==> final(self).spec_in_batch(),
            final(self).spec_bids()@ == old(self).spec_bids()@,
            final(self).spec_asks()@ == old(self).spec_asks()@,
            final(self).spec_bids().spec_policy() == old(self).spec_bids().spec_policy(),
            final(self).spec_asks().spec_policy() == old(self).spec_asks().spec_policy(),
            final(self).spec_listener() == old(self).spec_listener(),
            final(self).wf(),
    {
        match self.bids.begin() {
            Ok(()) => self.asks.begin(),
            Err(e) => Err(e),
        }
    }

    /// Closes the batch on both ladders. Refused, with nothing changed,
    /// outside of a batch.
    pub fn end(&mut self) -> (r: Result<(), LadderError>)
        requires
            old(self).wf(),
        ensures
            r is Ok <==> old(self).spec_in_batch(),
            r is Err ==> *final(self) == *old(self),
            r is Ok ==> !final(self).spec_in_batch(),
            final(self).spec_bids()@ == old(self).spec_bids()@,
            final(self).spec_asks()@ == old(self).spec_asks()@,
            final(self).spec_bids().spec_policy() == old(self).spec_bids().spec_policy(),
            final(self).spec_asks().spec_policy() == old(self).spec_asks().spec_policy(),
            final(self).spec_listener() == old(self).spec_listener(),
            final(self).wf(),
    {
        match self.bids.end() {
            Ok(()) => self.asks.end(),
            Err(e) => Err(e),
        }
    }

    /// Empties both ladders, in or out of a batch, and tells the listener
    /// nothing.
    pub fn clear(&mut self)
        requires
            old(self).wf(),
        ensures
            final(self).spec_bids()@ == Seq::<PriceLevel>::empty(),
            final(self).spec_asks()@ == Seq::<PriceLevel>::empty(),
            final(self).spec_bids().same_frame(old(self).spec_bids()),
            final(self).spec_asks().same_frame(old(self).spec_asks()),
            final(self).spec_listener() == old(self).spec_listener(),
            final(self).wf(),
    {
        self.bids.clear();
        self.asks.clear();
    }

    /// Drops the asks that `price` is strictly better than: the asks above
    /// `price`.
    pub fn remove_levels_before_ask(&mut self, price: Decimal64) -> (r: Result<(), LadderError>)
        requires
            old(self).wf(),
        ensures
            r is Ok <==> old(self).spec_in_batch(),
            r is Err ==> *final(self) == *old(self),
            r is Ok ==> final(self).spec_asks()@ == pruned(
                Side::SELL,
                old(self).spec_asks()@,
                price,
            ) && final(self).spec_listener().emitted() == old(self).spec_listener().emitted()
                + prune_events(Side::SELL, old(self).spec_asks()@, price),
            final(self).spec_asks().same_frame(old(self).spec_asks()),
            final(self).spec_bids() == old(self).spec_bids(),
            final(self).wf(),
    {
        self.asks.remove_levels_before(&mut self.listener, price)
    }

    /// Drops the bids that `price` is strictly better than: the bids below
    /// `price`.
    pub fn remove_levels_before_bid(&mut self, price: Decimal64) -> (r: Result<(), LadderError>)
        requires
            old(self).wf(),
        ensures
            r is Ok <==> old(self).spec_in_batch(),
            r is Err ==> *final(self) == *old(self),
            r is Ok ==> final(self).spec_bids()@ == pruned(
                Side::BUY,
                old(self).spec_bids()@,
                price,
            ) && final(self).spec_listener().emitted() == old(self).spec_listener().emitted()
                + prune_events(Side::BUY, old(self).spec_bids()@, price),
            final(self).spec_bids().same_frame(old(self).spec_bids()),
            final(self).spec_asks() == old(self).spec_asks(),
            final(self).wf(),
    {
        self.bids.remove_levels_before(&mut self.listener, price)
    }

    /// Sets what rests at `price` among the asks.
    pub fn update_ask(&mut self, price: Decimal64, qty: Decimal64, no_of_orders: u16) -> (r: Result<
        (),
        LadderError,
    >)
        requires
            old(self).wf(),
            qty >= 0,
        ensures
            r is Ok <==> old(self).spec_in_batch(),
            r is Err ==> *final(self) == *old(self),
            r is Ok ==> final(self).spec_asks()@ == updated(
                Side::SELL,
                old(self).spec_asks()@,
                price,
                qty,
                no_of_orders,
            ) && final(self).spec_listener().emitted() == old(self).spec_listener().emitted()
                + update_events(Side::SELL, old(self).spec_asks()@, price, qty, no_of_orders),
            final(self).spec_asks().same_frame(old(self).spec_asks()),
            final(self).spec_bids() == old(self).spec_bids(),
            final(self).wf(),
    {
        self.asks.add_or_update(&mut self.listener, price, qty, no_of_orders)
    }

    /// Sets what rests at `price` among the bids.
    pub fn update_bid(&mut self, price: Decimal64, qty: Decimal64, no_of_orders: u16) -> (r: Result<
        (),
        LadderError,
    >)
        requires
            old(self).wf(),
            qty >= 0,
        ensures
            r is Ok <==> old(self).spec_in_batch(),
            r is Err ==> *final(self) == *old(self),
            r is Ok ==> final(self).spec_bids()@ == updated(
                Side::BUY,
                old(self).spec_bids()@,
                price,
                qty,
                no_of_orders,
            ) && final(self).spec_listener().emitted() == old(self).spec_listener().emitted()
                + update_events(Side::BUY, old(self).spec_bids()@, price, qty, no_of_orders),
            final(self).spec_bids().same_frame(old(self).spec_bids()),
            final(self).spec_asks() == old(self).spec_asks(),
            final(self).wf(),
    {
        self.bids.add_or_update(&mut self.listener, price, qty, no_of_orders)
    }

    /// Applies a trade of `qty` at `price` to the side that rested: the bids
    /// where `is_buyer_mm` holds, and else the asks. The other side stays as
    /// it is.
    pub fn apply_trade(&mut self, price: Decimal64, qty: Decimal64, is_buyer_mm: bool) -> (r: Result<
        (),
        LadderError,
    >)
        requires
            old(self).wf(),
            qty >= 0,
        ensures
            r is Ok <==> old(self).spec_in_batch(),
            r is Err ==> *final(self) == *old(self),
            r is Ok && is_buyer_mm ==> final(self).spec_bids()@ == traded(
                Side::BUY,
                old(self).spec_bids()@,
                price,
                qty,
            ) && final(self).spec_listener().emitted() == old(self).spec_listener().emitted()
                + trade_events(Side::BUY, old(self).spec_bids()@, price, qty),
            r is Ok && !is_buyer_mm ==> final(self).spec_asks()@ == traded(
                Side::SELL,
                old(self).spec_asks()@,
                price,
                qty,
            ) && final(self).spec_listener().emitted() == old(self).spec_listener().emitted()
                + trade_events(Side::SELL, old(self).spec_asks()@, price, qty),
            is_buyer_mm ==> final(self).spec_asks() == old(self).spec_asks(),
            !is_buyer_mm ==> final(self).spec_bids() == old(self).spec_bids(),
            final(self).spec_bids().same_frame(old(self).spec_bids()),
            final(self).spec_asks().same_frame(old(self).spec_asks()),
            final(self).wf(),
    {
        if is_buyer_mm {
            self.bids.apply_trade(&mut self.listener, price, qty)
        } else {
            self.asks.apply_trade(&mut self.listener, price, qty)
        }
    }
}

} // verus!
