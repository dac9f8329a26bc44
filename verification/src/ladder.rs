use vstd::prelude::*;

pub use crate::book::Book;
use crate::common::{Decimal64, LadderError, Side};
use crate::level::LadderEvent;
pub use crate::level::{LadderEventListener, PriceLevel};
use crate::model::{
    at_depth, best_of, is_position, law_trade_keeps_order, law_update_keeps_order,
    lemma_holds_at_position, lemma_position_unique, lemma_subrange_well_formed, locates, ordered,
    prune_events, pruned, removals, trade_events, traded, update_events, updated, well_formed,
    worst_of,
};
use crate::util::{better, is_better};

verus! {

/// How a ladder looks a price up. Both policies find the same position.
#[derive(Debug, Copy, Clone, PartialEq, Eq, Structural)]
pub enum SearchPolicy {
    /// Halve the range until the price is found.
    Binary,
    /// Walk from the touch towards the far end: quick when updates cluster
    /// near the best price.
    Linear,
}

/// One side of a book: its price levels, least competitive first, so that
/// the touch is the last element of the vector.
#[derive(Debug)]
pub struct Ladder {
    side: Side,
    policy: SearchPolicy,
    in_batch: bool,
    levels: Vec<PriceLevel>,
}

/// Tells `listener` that `levels[from..to]` left, in that order.
fn emit_removals<L: LadderEventListener>(
    listener: &mut L,
    side: Side,
    levels: &Vec<PriceLevel>,
    from: usize,
    to: usize,
)
    requires
        from <= to <= levels@.len(),
    ensures
        final(listener).emitted() == old(listener).emitted() + removals(
            side,
            levels@.subrange(from as int, to as int),
        ),
{
    let mut i: usize = from;
    while i < to
        invariant
            from <= i <= to <= levels@.len(),
            listener.emitted() == old(listener).emitted() + removals(
                side,
                levels@.subrange(from as int, i as int),
            ),
        decreases to - i,
    {
        listener.on_remove(side, &levels[i]);
        proof {
            let done = removals(side, levels@.subrange(from as int, i as int));
            let next = removals(side, levels@.subrange(from as int, i + 1));
            assert(next =~= done.push(LadderEvent::Remove(side, levels@[i as int])));
            assert(listener.emitted() =~= old(listener).emitted() + next);
        }
        i += 1;
    }
}

impl View for Ladder {
    type V = Seq<PriceLevel>;

    /// The levels, least competitive first; the touch is the last.
    closed spec fn view(&self) -> Seq<PriceLevel> {
        self.levels@
    }
}

impl Ladder {
    /// The side whose ordering this ladder keeps.
    pub closed spec fn spec_side(&self) -> Side {
        self.side
    }

    /// The search policy chosen at construction.
    pub closed spec fn spec_policy(&self) -> SearchPolicy {
        self.policy
    }

    /// Whether a batch is open.
    pub closed spec fn spec_in_batch(&self) -> bool {
        self.in_batch
    }

    /// The levels are strictly ordered by the side, and none is empty.
    pub open spec fn wf(&self) -> bool {
        well_formed(self.spec_side(), self@)
    }

    /// `other` differs from this ladder in its levels at most.
    pub open spec fn same_frame(&self, other: Ladder) -> bool {
        &&& self.spec_side() == other.spec_side()
        &&& self.spec_policy() == other.spec_policy()
        &&& self.spec_in_batch() == other.spec_in_batch()
    }

    /// An empty ladder for `side`, outside of any batch.
    pub fn new(side: Side, policy: SearchPolicy) -> (r: Ladder)
        ensures
            r@ == Seq::<PriceLevel>::empty(),
            r.spec_side() == side,
            r.spec_policy() == policy,
            !r.spec_in_batch(),
            r.wf(),
    {
        Ladder { side, policy, in_batch: false, levels: Vec::new() }
    }

    /// The side whose ordering this ladder keeps.
    pub fn side(&self) -> (r: Side)
        ensures
            r == self.spec_side(),
    {
        self.side
    }

    /// How this ladder looks prices up.
    pub fn policy(&self) -> (r: SearchPolicy)
        ensures
            r == self.spec_policy(),
    {
        self.policy
    }

    /// Whether a batch is open.
    pub fn in_batch(&self) -> (r: bool)
        ensures
            r == self.spec_in_batch(),
    {
        self.in_batch
    }

    /// The levels from the best to the worst.
    pub fn iter(&self) -> (r: Vec<PriceLevel>)
        ensures
            r@.len() == self@.len(),
            forall|i: int| 0 <= i < r@.len() ==> Some(#[trigger] r@[i]) == at_depth(self@, i),
    {
        let n: usize = self.levels.len();
        let mut out: Vec<PriceLevel> = Vec::new();
        let mut i: usize = 0;
        while i < n
            invariant
                n == self.levels@.len(),
                i <= n,
                out@.len() == i,
                forall|k: int| 0 <= k < i ==> (#[trigger] out@[k]) == self.levels@[n - 1 - k],
            decreases n - i,
        {
            out.push(self.levels[n - 1 - i]);
            i += 1;
        }
        out
    }

    /// The number of levels.
    pub fn count(&self) -> (r: usize)
        ensures
            r == self@.len(),
    {
        self.levels.len()
    }

    /// The level at the touch, if there is any level.
    pub fn best(&self) -> (r: Option<&PriceLevel>)
        ensures
            match r {
                Some(level) => Some(*level) == best_of(self@),
                None => best_of(self@) is None,
            },
    {
        let n: usize = self.levels.len();
        if n > 0 {
            return Some(&self.levels[n - 1]);
        }
        None
    }

    /// The level farthest from the touch, if there is any level.
    pub fn worst(&self) -> (r: Option<&PriceLevel>)
        ensures
            match r {
                Some(level) => Some(*level) == worst_of(self@),
                None => worst_of(self@) is None,
            },
    {
        if self.levels.len() > 0 {
            return Some(&self.levels[0]);
        }
        None
    }

    /// The level `idx` steps from the touch: 0 is the best.
    pub fn get(&self, idx: usize) -> (r: Option<&PriceLevel>)
        ensures
            match r {
                Some(level) => Some(*level) == at_depth(self@, idx as int),
                None => at_depth(self@, idx as int) is None,
            },
    {
        let n: usize = self.levels.len();
        if idx < n {
            return Some(&self.levels[n - 1 - idx]);
        }
        None
    }

    /// Fails unless a batch is open.
    pub fn ensure_in_batch(&self) -> (r: Result<(), LadderError>)
        ensures
            r is Ok <==> self.spec_in_batch(),
    {
        if !self.in_batch {
            return Err(LadderError::InvalidCall);
        }
        Ok(())
    }

    /// Opens a batch. Refused, with nothing changed, inside a batch.
    pub fn begin(&mut self) -> (r: Result<(), LadderError>)
        ensures
            r is Ok <==> !old(self).spec_in_batch(),
            r is Err ==> *final(self) == *old(self),
            r is Ok ==> final(self).spec_in_batch(),
            final(self)@ == old(self)@,
            final(self).spec_side() == old(self).spec_side(),
            final(self).spec_policy() == old(self).spec_policy(),
    {
        if self.in_batch {
            return Err(LadderError::InvalidCall);
        }
        self.in_batch = true;
        Ok(())
    }

    /// Closes the batch. Refused, with nothing changed, outside of a batch.
    pub fn end(&mut self) -> (r: Result<(), LadderError>)
        ensures
            r is Ok <==> old(self).spec_in_batch(),
            r is Err ==> *final(self) == *old(self),
            r is Ok ==> !final(self).spec_in_batch(),
            final(self)@ == old(self)@,
            final(self).spec_side() == old(self).spec_side(),
            final(self).spec_policy() == old(self).spec_policy(),
    {
        if !self.in_batch {
            return Err(LadderError::InvalidCall);
        }
        self.in_batch = false;
        Ok(())
    }

    /// Looks `price` up by halving.
    fn find_binary(&self, price: Decimal64) -> (r: Result<usize, usize>)
        requires
            ordered(self.spec_side(), self@),
        ensures
            locates(self.spec_side(), self@, price, r),
    {
        let ghost s = self.levels@;
        let side = self.side;
        let mut lo: usize = 0;
        let mut hi: usize = self.levels.len();
        while lo < hi
            invariant
                s == self.levels@,
                side == self.side,
                ordered(side, s),
                lo <= hi <= s.len(),
                forall|i: int| 0 <= i < lo ==> better(side, price, (#[trigger] s[i]).price),
                forall|i: int| hi <= i < s.len() ==> better(side, (#[trigger] s[i]).price, price),
            decreases hi - lo,
        {
            let mid: usize = lo + (hi - lo) / 2;
            let at: Decimal64 = self.levels[mid].price;
            if at == price {
                proof {
                    assert forall|i: int| 0 <= i < mid implies better(
                        side,
                        price,
                        (#[trigger] s[i]).price,
                    ) by {
                        assert(better(side, s[mid as int].price, s[i].price));
                    }
                    assert forall|i: int| mid <= i < s.len() implies !better(
                        side,
                        price,
                        (#[trigger] s[i]).price,
                    ) by {
                        if mid < i {
                            assert(better(side, s[i].price, s[mid as int].price));
                        }
                    }
                    lemma_position_unique(side, s, price, mid as int);
                    lemma_holds_at_position(side, s, price, mid as int);
                }
                return Ok(mid);
            } else if is_better(side, price, at) {
                proof {
                    assert forall|i: int| 0 <= i < mid + 1 implies better(
                        side,
                        price,
                        (#[trigger] s[i]).price,
                    ) by {
                        if i < mid {
                            assert(better(side, s[mid as int].price, s[i].price));
                        }
                    }
                }
                lo = mid + 1;
            } else {
                proof {
                    assert forall|i: int| mid <= i < s.len() implies better(
                        side,
                        (#[trigger] s[i]).price,
                        price,
                    ) by {
                        if mid < i {
                            assert(better(side, s[i].price, s[mid as int].price));
                        }
                    }
                }
                hi = mid;
            }
        }
        proof {
            assert(is_position(side, s, price, lo as int));
            lemma_position_unique(side, s, price, lo as int);
            lemma_holds_at_position(side, s, price, lo as int);
            if lo < s.len() {
                assert(better(side, s[lo as int].price, price));
            }
        }
        Err(lo)
    }

    /// Looks `price` up by walking from the touch towards the far end.
    fn find_linear(&self, price: Decimal64) -> (r: Result<usize, usize>)
        requires
            ordered(self.spec_side(), self@),
        ensures
            locates(self.spec_side(), self@, price, r),
    {
        let ghost s = self.levels@;
        let side = self.side;
        let mut i: usize = self.levels.len();
        while i > 0
            invariant
                s == self.levels@,
                side == self.side,
                ordered(side, s),
                i <= s.len(),
                forall|k: int| i <= k < s.len() ==> better(side, (#[trigger] s[k]).price, price),
            decreases i,
        {
            let at: Decimal64 = self.levels[i - 1].price;
            if at == price {
                proof {
                    let m = i - 1;
                    assert forall|k: int| 0 <= k < m implies better(
                        side,
                        price,
                        (#[trigger] s[k]).price,
                    ) by {
                        assert(better(side, s[m].price, s[k].price));
                    }
                    assert forall|k: int| m <= k < s.len() implies !better(
                        side,
                        price,
                        (#[trigger] s[k]).price,
                    ) by {
                        if m < k {
                            assert(better(side, s[k].price, price));
                        }
                    }
                    lemma_position_unique(side, s, price, m);
                    lemma_holds_at_position(side, s, price, m);
                }
                return Ok(i - 1);
            } else if is_better(side, price, at) {
                proof {
                    let m = i - 1;
                    assert forall|k: int| 0 <= k < i implies better(
                        side,
                        price,
                        (#[trigger] s[k]).price,
                    ) by {
                        if k < m {
                            assert(better(side, s[m].price, s[k].price));
                        }
                    }
                    assert forall|k: int| i <= k < s.len() implies !better(
                        side,
                        price,
                        (#[trigger] s[k]).price,
                    ) by {
                        assert(better(side, s[k].price, price));
                    }
                    lemma_position_unique(side, s, price, i as int);
                    lemma_holds_at_position(side, s, price, i as int);
                    if i < s.len() {
                        assert(better(side, s[i as int].price, price));
                    }
                }
                return Err(i);
            }
            i -= 1;
        }
        proof {
            assert forall|k: int| 0 <= k < s.len() implies !better(
                side,
                price,
                (#[trigger] s[k]).price,
            ) by {
                assert(better(side, s[k].price, price));
            }
            lemma_position_unique(side, s, price, 0);
            lemma_holds_at_position(side, s, price, 0);
            if 0 < s.len() {
                assert(better(side, s[0].price, price));
            }
        }
        Err(0)
    }

    /// Where `price` stands: `Ok` with the index of its level, or `Err` with
    /// the index at which a level of that price belongs. The index counts
    /// from the far end, as the levels are stored.
    pub fn find(&self, price: Decimal64) -> (r: Result<usize, usize>)
        requires
            self.wf(),
        ensures
            locates(self.spec_side(), self@, price, r),
    {
        match self.policy {
            SearchPolicy::Binary => self.find_binary(price),
            SearchPolicy::Linear => self.find_linear(price),
        }
    }

    /// Sets what rests at `price`. Refused, with nothing changed and nothing
    /// emitted, outside of a batch. Inside one:
    /// a level held at `price` is removed when `qty` is zero (one removal
    /// event with the level as it was), rewritten when its quantity differs
    /// from `qty` (one update event), and else left alone; a price not held
    /// is inserted when `qty` is positive (one add event).
    pub fn add_or_update<L: LadderEventListener>(
        &mut self,
        listener: &mut L,
        price: Decimal64,
        qty: Decimal64,
        no_of_orders: u16,
    ) -> (r: Result<(), LadderError>)
        requires
            old(self).wf(),
            qty >= 0,
        ensures
            r is Ok <==> old(self).spec_in_batch(),
            r is Err ==> *final(self) == *old(self) && *final(listener) == *old(listener),
            r is Ok ==> final(self)@ == updated(
                old(self).spec_side(),
                old(self)@,
                price,
                qty,
                no_of_orders,
            ) && final(listener).emitted() == old(listener).emitted() + update_events(
                old(self).spec_side(),
                old(self)@,
                price,
                qty,
                no_of_orders,
            ),
            final(self).same_frame(*old(self)),
            final(self).wf(),
    {
        if !self.in_batch {
            return Err(LadderError::InvalidCall);
        }
        let side = self.side;
        proof {
            law_update_keeps_order(side, self.levels@, price, qty, no_of_orders);
        }
        let ghost before = listener.emitted();
        let ghost events = update_events(side, self.levels@, price, qty, no_of_orders);
        match self.find(price) {
            Ok(pos) => {
                if qty == 0 {
                    let level = self.levels[pos];
                    listener.on_remove(side, &level);
                    self.levels.remove(pos);
                    assert(listener.emitted() =~= before + events);
                } else if self.levels[pos].qty != qty {
                    let old_level = self.levels[pos];
                    let new_level = PriceLevel { price, qty, no_of_orders };
                    self.levels[pos] = new_level;
                    listener.on_update(side, &old_level, &new_level);
                    assert(listener.emitted() =~= before + events);
                } else {
                    assert(listener.emitted() =~= before + events);
                }
            },
            Err(pos) => {
                if qty > 0 {
                    let level = PriceLevel { price, qty, no_of_orders };
                    self.levels.insert(pos, level);
                    listener.on_add(side, &level);
                    assert(listener.emitted() =~= before + events);
                } else {
                    assert(listener.emitted() =~= before + events);
                }
            },
        }
        Ok(())
    }

    /// Drops every level, in or out of a batch, and tells no listener.
    pub fn clear(&mut self)
        ensures
            final(self)@ == Seq::<PriceLevel>::empty(),
            final(self).same_frame(*old(self)),
            final(self).wf(),
    {
        self.levels.clear();
    }

    /// Drops the levels that `price` is strictly better than, with one
    /// removal event for each, the farthest from the touch first. A level at
    /// `price` and the levels better than it stay as they are. Refused, with
    /// nothing changed and nothing emitted, outside of a batch.
    pub fn remove_levels_before<L: LadderEventListener>(
        &mut self,
        listener: &mut L,
        price: Decimal64,
    ) -> (r: Result<(), LadderError>)
        requires
            old(self).wf(),
        ensures
            r is Ok <==> old(self).spec_in_batch(),
            r is Err ==> *final(self) == *old(self) && *final(listener) == *old(listener),
            r is Ok ==> final(self)@ == pruned(old(self).spec_side(), old(self)@, price)
                && final(listener).emitted() == old(listener).emitted() + prune_events(
                old(self).spec_side(),
                old(self)@,
                price,
            ),
            final(self).same_frame(*old(self)),
            final(self).wf(),
    {
        if !self.in_batch {
            return Err(LadderError::InvalidCall);
        }
        let side = self.side;
        let pos: usize = match self.find(price) {
            Ok(pos) => pos,
            Err(pos) => pos,
        };
        proof {
            lemma_subrange_well_formed(side, self.levels@, pos as int, self.levels@.len() as int);
        }
        emit_removals(listener, side, &self.levels, 0, pos);
        let kept = self.levels.split_off(pos);
        self.levels = kept;
        Ok(())
    }

    /// Applies a trade of `qty` at `price`. Every level strictly better than
    /// `price` is removed, with one removal event each. A level held at
    /// `price` is then removed when `qty` covers its quantity, and else keeps
    /// its quantity less `qty`, with one update event. Levels worse than
    /// `price` stay as they are. Refused, with nothing changed and nothing
    /// emitted, outside of a batch.
    pub fn apply_trade<L: LadderEventListener>(
        &mut self,
        listener: &mut L,
        price: Decimal64,
        qty: Decimal64,
    ) -> (r: Result<(), LadderError>)
        requires
            old(self).wf(),
            qty >= 0,
        ensures
            r is Ok <==> old(self).spec_in_batch(),
            r is Err ==> *final(self) == *old(self) && *final(listener) == *old(listener),
            r is Ok ==> final(self)@ == traded(old(self).spec_side(), old(self)@, price, qty)
                && final(listener).emitted() == old(listener).emitted() + trade_events(
                old(self).spec_side(),
                old(self)@,
                price,
                qty,
            ),
            final(self).same_frame(*old(self)),
            final(self).wf(),
    {
        if !self.in_batch {
            return Err(LadderError::InvalidCall);
        }
        let side = self.side;
        let n: usize = self.levels.len();
        proof {
            law_trade_keeps_order(side, self.levels@, price, qty);
        }
        let ghost s = self.levels@;
        let ghost before = listener.emitted();
        let ghost events = trade_events(side, s, price, qty);
        match self.find(price) {
            Ok(pos) => {
                emit_removals(listener, side, &self.levels, pos + 1, n);
                let old_level = self.levels[pos];
                if qty >= old_level.qty {
                    listener.on_remove(side, &old_level);
                    self.levels.truncate(pos);
                } else {
                    let new_level = PriceLevel {
                        price: old_level.price,
                        qty: old_level.qty - qty,
                        no_of_orders: old_level.no_of_orders,
                    };
                    self.levels.truncate(pos + 1);
                    self.levels[pos] = new_level;
                    listener.on_update(side, &old_level, &new_level);
                    assert(self.levels@ =~= s.subrange(0, pos as int).push(new_level));
                }
                assert(listener.emitted() =~= before + events);
            },
            Err(pos) => {
                emit_removals(listener, side, &self.levels, pos, n);
                self.levels.truncate(pos);
            },
        }
        Ok(())
    }
}

} // verus!
