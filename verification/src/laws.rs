use vstd::prelude::*;

use crate::common::Side;
use crate::level::{LadderEvent, PriceLevel};
use crate::model::{
    at_depth, best_of, holds, law_update_keeps_order, lemma_holds_at_position,
    lemma_position_exists, lemma_position_unique, lemma_subrange_well_formed, level_of, position,
    prune_events, pruned, reduced, removals, trade_events, traded, update_events, updated,
    well_formed, worst_of,
};
use crate::util::better;

verus! {

/// The levels after the updates `ops`, each a price, a quantity and an order
/// count, applied to `s` one after another.
pub open spec fn replayed(side: Side, s: Seq<PriceLevel>, ops: Seq<(i64, i64, u16)>) -> Seq<
    PriceLevel,
>
    decreases ops.len(),
{
    if ops.len() == 0 {
        s
    } else {
        let op = ops.last();
        updated(side, replayed(side, s, ops.drop_last()), op.0, op.1, op.2)
    }
}

/// Whatever updates are applied, in whatever order, the levels stay strictly
/// ordered by the side, with unique prices and no empty level.
pub proof fn law_updates_keep_order(side: Side, s: Seq<PriceLevel>, ops: Seq<(i64, i64, u16)>)
    requires
        well_formed(side, s),
        forall|k: int| 0 <= k < ops.len() ==> (#[trigger] ops[k]).1 >= 0,
    ensures
        well_formed(side, replayed(side, s, ops)),
    decreases ops.len(),
{
    if ops.len() > 0 {
        let rest = ops.drop_last();
        assert forall|k: int| 0 <= k < rest.len() implies (#[trigger] rest[k]).1 >= 0 by {
            assert(rest[k] == ops[k]);
        }
        law_updates_keep_order(side, s, rest);
        let op = ops.last();
        assert(op == ops[ops.len() - 1]);
        law_update_keeps_order(side, replayed(side, s, rest), op.0, op.1, op.2);
    }
}

/// Strict order leaves no room for a price twice: in well-formed levels the
/// prices at two different indices differ.
pub proof fn law_prices_unique(side: Side, s: Seq<PriceLevel>, i: int, j: int)
    requires
        well_formed(side, s),
        0 <= i < s.len(),
        0 <= j < s.len(),
        i != j,
    ensures
        s[i].price != s[j].price,
{
    if i < j {
        assert(better(side, s[j].price, s[i].price));
    } else {
        assert(better(side, s[i].price, s[j].price));
    }
}

/// Setting a held price to quantity zero removes that level and no other,
/// and fires exactly one removal, which carries the level as it was.
pub proof fn law_zero_quantity_removes(side: Side, s: Seq<PriceLevel>, price: i64, no_of_orders: u16)
    requires
        well_formed(side, s),
        holds(s, price),
    ensures
        ({
            let p = position(side, s, price);
            let r = updated(side, s, price, 0, no_of_orders);
            &&& 0 <= p < s.len()
            &&& s[p].price == price
            &&& r == s.remove(p)
            &&& r.len() == s.len() - 1
            &&& !holds(r, price)
            &&& update_events(side, s, price, 0, no_of_orders) == seq![
                LadderEvent::Remove(side, s[p]),
            ]
        }),
{
    lemma_position_exists(side, s, price);
    let p = position(side, s, price);
    lemma_holds_at_position(side, s, price, p);
    let r = s.remove(p);
    if holds(r, price) {
        let i = choose|i: int| 0 <= i < r.len() && (#[trigger] r[i]).price == price;
        let a = if i < p { i } else { i + 1 };
        assert(r[i] == s[a]);
        law_prices_unique(side, s, a, p);
    }
}

/// Setting a price that is not held to a positive quantity inserts one level
/// and fires exactly one add. The new level is the best where its price
/// beats every level, and the worst where every level beats it; where some
/// level is better the best stays, and where some level is worse the worst
/// stays.
pub proof fn law_new_price_adds(
    side: Side,
    s: Seq<PriceLevel>,
    price: i64,
    qty: i64,
    no_of_orders: u16,
)
    requires
        well_formed(side, s),
        !holds(s, price),
        qty > 0,
    ensures
        ({
            let level = level_of(price, qty, no_of_orders);
            let r = updated(side, s, price, qty, no_of_orders);
            &&& update_events(side, s, price, qty, no_of_orders) == seq![
                LadderEvent::Add(side, level),
            ]
            &&& r == s.insert(position(side, s, price), level)
            &&& r.len() == s.len() + 1
            &&& holds(r, price)
            &&& (forall|i: int| 0 <= i < s.len() ==> better(side, price, (#[trigger] s[i]).price))
                ==> best_of(r) == Some(level)
            &&& (forall|i: int| 0 <= i < s.len() ==> better(side, (#[trigger] s[i]).price, price))
                ==> worst_of(r) == Some(level)
            &&& (exists|i: int| 0 <= i < s.len() && better(side, (#[trigger] s[i]).price, price))
                ==> best_of(r) == best_of(s)
            &&& (exists|i: int| 0 <= i < s.len() && better(side, price, (#[trigger] s[i]).price))
                ==> worst_of(r) == worst_of(s)
        }),
{
    lemma_position_exists(side, s, price);
    let p = position(side, s, price);
    let level = level_of(price, qty, no_of_orders);
    let r = s.insert(p, level);
    assert(r[p] == level);
    if forall|i: int| 0 <= i < s.len() ==> better(side, price, (#[trigger] s[i]).price) {
        lemma_position_unique(side, s, price, s.len() as int);
    }
    if forall|i: int| 0 <= i < s.len() ==> better(side, (#[trigger] s[i]).price, price) {
        assert forall|i: int| 0 <= i < s.len() implies !better(
            side,
            price,
            (#[trigger] s[i]).price,
        ) by {
            assert(better(side, s[i].price, price));
        }
        lemma_position_unique(side, s, price, 0);
    }
    if exists|i: int| 0 <= i < s.len() && better(side, (#[trigger] s[i]).price, price) {
        let i = choose|i: int| 0 <= i < s.len() && better(side, (#[trigger] s[i]).price, price);
        assert(!better(side, price, s[i].price));
        assert(p <= i);
        assert(r[r.len() - 1] == s[s.len() - 1]);
    }
    if exists|i: int| 0 <= i < s.len() && better(side, price, (#[trigger] s[i]).price) {
        let i = choose|i: int| 0 <= i < s.len() && better(side, price, (#[trigger] s[i]).price);
        assert(i < p);
        assert(r[0] == s[0]);
    }
}

/// A trade at a held price. The levels strictly better than that price are
/// exactly those behind its position, and each fires one removal; the levels
/// worse than it stay as they are. Where the traded quantity covers the
/// level, the level leaves and the last event is its removal; else the level
/// stays with its quantity less the traded quantity, and the last event is
/// an update from the level as it was to the level as it is.
pub proof fn law_trade_at_held_price(side: Side, s: Seq<PriceLevel>, price: i64, qty: i64)
    requires
        well_formed(side, s),
        holds(s, price),
        qty >= 0,
    ensures
        ({
            let p = position(side, s, price);
            let r = traded(side, s, price, qty);
            let e = trade_events(side, s, price, qty);
            &&& 0 <= p < s.len()
            &&& s[p].price == price
            &&& e.len() == s.len() - p
            &&& e.drop_last() == removals(side, s.subrange(p + 1, s.len() as int))
            &&& forall|i: int| p < i < s.len() ==> better(side, (#[trigger] s[i]).price, price)
            &&& forall|i: int|
                0 <= i < p ==> r[i] == #[trigger] s[i] && better(side, price, s[i].price)
            &&& qty >= s[p].qty ==> {
                &&& r.len() == p
                &&& !holds(r, price)
                &&& e.last() == LadderEvent::Remove(side, s[p])
            }
            &&& qty < s[p].qty ==> {
                &&& r.len() == p + 1
                &&& r[p].price == price
                &&& r[p].qty == s[p].qty - qty
                &&& r[p].no_of_orders == s[p].no_of_orders
                &&& e.last() == LadderEvent::Update(side, s[p], r[p])
            }
        }),
{
    lemma_position_exists(side, s, price);
    let p = position(side, s, price);
    lemma_holds_at_position(side, s, price, p);
    let r = traded(side, s, price, qty);
    let e = trade_events(side, s, price, qty);
    let crossed = removals(side, s.subrange(p + 1, s.len() as int));
    assert(e.drop_last() =~= crossed);
    assert forall|i: int| p < i < s.len() implies better(side, (#[trigger] s[i]).price, price) by {
        assert(better(side, s[i].price, s[p].price));
    }
    if qty >= s[p].qty {
        if holds(r, price) {
            let i = choose|i: int| 0 <= i < r.len() && (#[trigger] r[i]).price == price;
            assert(r[i] == s[i]);
            law_prices_unique(side, s, i, p);
        }
    } else {
        assert(r[p] == reduced(s[p], qty));
        assert(s[p].qty > 0);
    }
}

/// A trade at a price that is not held removes exactly the levels strictly
/// better than that price, one removal each, and leaves the levels worse
/// than it as they were.
pub proof fn law_trade_at_absent_price(side: Side, s: Seq<PriceLevel>, price: i64, qty: i64)
    requires
        well_formed(side, s),
        !holds(s, price),
    ensures
        ({
            let p = position(side, s, price);
            let r = traded(side, s, price, qty);
            let e = trade_events(side, s, price, qty);
            &&& 0 <= p <= s.len()
            &&& r.len() == p
            &&& e.len() == s.len() - p
            &&& forall|i: int|
                0 <= i < p ==> r[i] == #[trigger] s[i] && better(side, price, s[i].price)
            &&& forall|i: int|
                p <= i < s.len() ==> better(side, (#[trigger] s[i]).price, price) && e[i - p]
                    == LadderEvent::Remove(side, s[i])
        }),
{
    lemma_position_exists(side, s, price);
    let p = position(side, s, price);
    assert forall|i: int| p <= i < s.len() implies better(side, (#[trigger] s[i]).price, price) by {
        assert(!better(side, price, s[i].price));
        assert(s[i].price != price);
    }
}

/// Dropping the levels before a price removes exactly the levels that the
/// price is strictly better than, one removal each, and leaves the others
/// as they were, in their order.
pub proof fn law_prune_drops_worse(side: Side, s: Seq<PriceLevel>, price: i64)
    requires
        well_formed(side, s),
    ensures
        ({
            let p = position(side, s, price);
            let r = pruned(side, s, price);
            let e = prune_events(side, s, price);
            &&& 0 <= p <= s.len()
            &&& well_formed(side, r)
            &&& r.len() == s.len() - p
            &&& e.len() == p
            &&& forall|i: int|
                0 <= i < p ==> better(side, price, (#[trigger] s[i]).price) && e[i]
                    == LadderEvent::Remove(side, s[i])
            &&& forall|i: int|
                p <= i < s.len() ==> !better(side, price, (#[trigger] s[i]).price) && r[i - p]
                    == s[i]
        }),
{
    lemma_position_exists(side, s, price);
    let p = position(side, s, price);
    lemma_subrange_well_formed(side, s, p, s.len() as int);
}

/// Depth zero is the best level, and the last depth is the worst.
pub proof fn law_depth_ends(s: Seq<PriceLevel>)
    requires
        s.len() > 0,
    ensures
        at_depth(s, 0) == best_of(s),
        at_depth(s, s.len() - 1) == worst_of(s),
{
}

} // verus!
