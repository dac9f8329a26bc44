use vstd::prelude::*;

use crate::common::Side;
use crate::level::{LadderEvent, PriceLevel};
use crate::util::better;

verus! {

/// A ladder's levels as a sequence, least competitive first: the touch is the
/// last element. Every price stands strictly better than all before it, so no
/// price occurs twice.
pub open spec fn ordered(side: Side, s: Seq<PriceLevel>) -> bool {
    forall|i: int, j: int|
        0 <= i < j < s.len() ==> better(side, (#[trigger] s[j]).price, (#[trigger] s[i]).price)
}

/// No stored level is empty.
pub open spec fn positive(s: Seq<PriceLevel>) -> bool {
    forall|i: int| 0 <= i < s.len() ==> (#[trigger] s[i]).qty > 0
}

/// What every ladder keeps true of its levels.
pub open spec fn well_formed(side: Side, s: Seq<PriceLevel>) -> bool {
    ordered(side, s) && positive(s)
}

/// Some level of `s` stands at `price`.
pub open spec fn holds(s: Seq<PriceLevel>, price: i64) -> bool {
    exists|i: int| 0 <= i < s.len() && (#[trigger] s[i]).price == price
}

/// `p` parts `s` at `price`: the levels before `p` are those that `price` is
/// strictly better than.
pub open spec fn is_position(side: Side, s: Seq<PriceLevel>, price: i64, p: int) -> bool {
    &&& 0 <= p <= s.len()
    &&& forall|i: int| 0 <= i < p ==> better(side, price, (#[trigger] s[i]).price)
    &&& forall|i: int| p <= i < s.len() ==> !better(side, price, (#[trigger] s[i]).price)
}

/// Where `price` stands in `s`: the index of its level where `s` holds one,
/// and else the index at which a level of that price would be inserted.
pub open spec fn position(side: Side, s: Seq<PriceLevel>, price: i64) -> int {
    choose|p: int| is_position(side, s, price, p)
}

/// What a lookup of `price` in `s` returns: `Ok` with the index of the level
/// at `price`, or, where no level stands at `price`, `Err` with the index at
/// which one belongs. Either index is `position`.
pub open spec fn locates(side: Side, s: Seq<PriceLevel>, price: i64, r: Result<usize, usize>) -> bool {
    match r {
        Ok(p) => {
            &&& holds(s, price)
            &&& p == position(side, s, price)
            &&& is_position(side, s, price, p as int)
            &&& p < s.len()
            &&& s[p as int].price == price
        },
        Err(p) => {
            &&& !holds(s, price)
            &&& p == position(side, s, price)
            &&& is_position(side, s, price, p as int)
        },
    }
}

/// The removal events of the levels of `s`, in the order of `s`.
pub open spec fn removals(side: Side, s: Seq<PriceLevel>) -> Seq<LadderEvent> {
    Seq::new(s.len(), |i: int| LadderEvent::Remove(side, s[i]))
}

/// The level that an update to `(price, qty, no_of_orders)` writes.
pub open spec fn level_of(price: i64, qty: i64, no_of_orders: u16) -> PriceLevel {
    PriceLevel { price, qty, no_of_orders }
}

/// The levels after an update of `price` to `qty`: a held level leaves when
/// `qty` is zero and is rewritten when its quantity differs from `qty`; a
/// price not held is inserted at its position when `qty` is positive.
pub open spec fn updated(side: Side, s: Seq<PriceLevel>, price: i64, qty: i64, no_of_orders: u16) -> Seq<
    PriceLevel,
> {
    let p = position(side, s, price);
    if holds(s, price) {
        if qty == 0 {
            s.remove(p)
        } else if s[p].qty != qty {
            s.update(p, level_of(price, qty, no_of_orders))
        } else {
            s
        }
    } else if qty > 0 {
        s.insert(p, level_of(price, qty, no_of_orders))
    } else {
        s
    }
}

/// The events that the same update fires: at most one.
pub open spec fn update_events(
    side: Side,
    s: Seq<PriceLevel>,
    price: i64,
    qty: i64,
    no_of_orders: u16,
) -> Seq<LadderEvent> {
    let p = position(side, s, price);
    if holds(s, price) {
        if qty == 0 {
            seq![LadderEvent::Remove(side, s[p])]
        } else if s[p].qty != qty {
            seq![LadderEvent::Update(side, s[p], level_of(price, qty, no_of_orders))]
        } else {
            Seq::empty()
        }
    } else if qty > 0 {
        seq![LadderEvent::Add(side, level_of(price, qty, no_of_orders))]
    } else {
        Seq::empty()
    }
}

/// The levels that stay when those worse than `price` are dropped.
pub open spec fn pruned(side: Side, s: Seq<PriceLevel>, price: i64) -> Seq<PriceLevel> {
    s.subrange(position(side, s, price), s.len() as int)
}

/// The events of that drop: one removal per level worse than `price`, the
/// least competitive first.
pub open spec fn prune_events(side: Side, s: Seq<PriceLevel>, price: i64) -> Seq<LadderEvent> {
    removals(side, s.subrange(0, position(side, s, price)))
}

/// `level` after `qty` of it has traded.
pub open spec fn reduced(level: PriceLevel, qty: i64) -> PriceLevel {
    PriceLevel { price: level.price, qty: (level.qty - qty) as i64, no_of_orders: level.no_of_orders }
}

/// The levels after a trade of `qty` at `price`. Every level strictly better
/// than `price` leaves. A level held at `price` leaves too when `qty` covers
/// it, and else stays with its quantity reduced by `qty`.
pub open spec fn traded(side: Side, s: Seq<PriceLevel>, price: i64, qty: i64) -> Seq<PriceLevel> {
    let p = position(side, s, price);
    if holds(s, price) && qty < s[p].qty {
        s.subrange(0, p).push(reduced(s[p], qty))
    } else {
        s.subrange(0, p)
    }
}

/// The events of that trade: the removals of the levels strictly better than
/// `price`, in storage order, and then what became of the level at `price`.
pub open spec fn trade_events(side: Side, s: Seq<PriceLevel>, price: i64, qty: i64) -> Seq<
    LadderEvent,
> {
    let p = position(side, s, price);
    if holds(s, price) {
        let crossed = removals(side, s.subrange(p + 1, s.len() as int));
        if qty >= s[p].qty {
            crossed.push(LadderEvent::Remove(side, s[p]))
        } else {
            crossed.push(LadderEvent::Update(side, s[p], reduced(s[p], qty)))
        }
    } else {
        removals(side, s.subrange(p, s.len() as int))
    }
}

/// The most competitive level of `s`.
pub open spec fn best_of(s: Seq<PriceLevel>) -> Option<PriceLevel> {
    if s.len() > 0 {
        Some(s[s.len() - 1])
    } else {
        None
    }
}

/// The least competitive level of `s`.
pub open spec fn worst_of(s: Seq<PriceLevel>) -> Option<PriceLevel> {
    if s.len() > 0 {
        Some(s[0])
    } else {
        None
    }
}

/// The level `idx` steps away from the touch.
pub open spec fn at_depth(s: Seq<PriceLevel>, idx: int) -> Option<PriceLevel> {
    if 0 <= idx < s.len() {
        Some(s[s.len() - 1 - idx])
    } else {
        None
    }
}

/// A position is unique: whatever parts `s` at `price` is `position`.
pub proof fn lemma_position_unique(side: Side, s: Seq<PriceLevel>, price: i64, p: int)
    requires
        is_position(side, s, price, p),
    ensures
        position(side, s, price) == p,
{
    let q = position(side, s, price);
    assert(is_position(side, s, price, q));
    if q < p {
        assert(better(side, price, s[q].price));
    } else if p < q {
        assert(better(side, price, s[p].price));
    }
}

/// In an ordered sequence a price is held exactly where its position holds it.
pub proof fn lemma_holds_at_position(side: Side, s: Seq<PriceLevel>, price: i64, p: int)
    requires
        ordered(side, s),
        is_position(side, s, price, p),
    ensures
        holds(s, price) <==> (p < s.len() && s[p].price == price),
{
    if holds(s, price) {
        let i = choose|i: int| 0 <= i < s.len() && (#[trigger] s[i]).price == price;
        assert(!better(side, price, s[i].price));
        if i < p {
            assert(better(side, price, s[i].price));
        }
        if i > p {
            assert(better(side, s[i].price, s[p].price));
            assert(!better(side, price, s[p].price));
        }
    }
    if p < s.len() && s[p].price == price {
        assert(s[p].price == price);
    }
}

/// An ordered sequence has a position for every price.
pub proof fn lemma_position_exists(side: Side, s: Seq<PriceLevel>, price: i64)
    requires
        ordered(side, s),
    ensures
        is_position(side, s, price, position(side, s, price)),
    decreases s.len(),
{
    if s.len() == 0 {
        assert(is_position(side, s, price, 0));
    } else {
        let t = s.drop_last();
        let last = s.len() - 1;
        assert forall|i: int, j: int| 0 <= i < j < t.len() implies better(
            side,
            (#[trigger] t[j]).price,
            (#[trigger] t[i]).price,
        ) by {
            assert(t[j] == s[j] && t[i] == s[i]);
        }
        lemma_position_exists(side, t, price);
        let q = position(side, t, price);
        if better(side, price, s[last].price) {
            assert forall|i: int| 0 <= i < s.len() implies better(
                side,
                price,
                (#[trigger] s[i]).price,
            ) by {
                if i < last {
                    assert(better(side, s[last].price, s[i].price));
                }
            }
            assert(is_position(side, s, price, s.len() as int));
        } else {
            assert forall|i: int| 0 <= i < q implies better(
                side,
                price,
                (#[trigger] s[i]).price,
            ) by {
                assert(t[i] == s[i]);
            }
            assert forall|i: int| q <= i < s.len() implies !better(
                side,
                price,
                (#[trigger] s[i]).price,
            ) by {
                if i < last {
                    assert(t[i] == s[i]);
                }
            }
            assert(is_position(side, s, price, q));
        }
    }
}

/// An update keeps the levels strictly ordered, with unique prices and no
/// empty level.
pub proof fn law_update_keeps_order(
    side: Side,
    s: Seq<PriceLevel>,
    price: i64,
    qty: i64,
    no_of_orders: u16,
)
    requires
        well_formed(side, s),
        qty >= 0,
    ensures
        well_formed(side, updated(side, s, price, qty, no_of_orders)),
{
    lemma_position_exists(side, s, price);
    let p = position(side, s, price);
    lemma_holds_at_position(side, s, price, p);
    let r = updated(side, s, price, qty, no_of_orders);
    let level = level_of(price, qty, no_of_orders);
    if holds(s, price) {
        if qty == 0 {
            assert forall|i: int| 0 <= i < r.len() implies r[i] == s[if i < p {
                i
            } else {
                i + 1
            }] by {}
            assert(ordered(side, r)) by {
                assert forall|i: int, j: int| 0 <= i < j < r.len() implies better(
                    side,
                    (#[trigger] r[j]).price,
                    (#[trigger] r[i]).price,
                ) by {
                    let a = if i < p { i } else { i + 1 };
                    let b = if j < p { j } else { j + 1 };
                    assert(r[i] == s[a] && r[j] == s[b]);
                    assert(better(side, s[b].price, s[a].price));
                }
            }
            assert(positive(r)) by {
                assert forall|i: int| 0 <= i < r.len() implies (#[trigger] r[i]).qty > 0 by {
                    let a = if i < p { i } else { i + 1 };
                    assert(r[i] == s[a]);
                }
            }
        } else if s[p].qty != qty {
            assert(ordered(side, r)) by {
                assert forall|i: int, j: int| 0 <= i < j < r.len() implies better(
                    side,
                    (#[trigger] r[j]).price,
                    (#[trigger] r[i]).price,
                ) by {
                    assert(r[i].price == s[i].price && r[j].price == s[j].price);
                    assert(better(side, s[j].price, s[i].price));
                }
            }
            assert(positive(r)) by {
                assert forall|i: int| 0 <= i < r.len() implies (#[trigger] r[i]).qty > 0 by {
                    if i != p {
                        assert(r[i] == s[i]);
                    }
                }
            }
        }
    } else if qty > 0 {
        assert forall|k: int| p <= k < s.len() implies better(
            side,
            (#[trigger] s[k]).price,
            price,
        ) by {
            assert(!better(side, price, s[k].price));
            assert(s[k].price != price);
        }
        assert(ordered(side, r)) by {
            assert forall|i: int, j: int| 0 <= i < j < r.len() implies better(
                side,
                (#[trigger] r[j]).price,
                (#[trigger] r[i]).price,
            ) by {
                if i < p && j > p {
                    assert(r[i] == s[i] && r[j] == s[j - 1]);
                    assert(better(side, s[j - 1].price, s[i].price));
                } else if i < p && j < p {
                    assert(r[i] == s[i] && r[j] == s[j]);
                    assert(better(side, s[j].price, s[i].price));
                } else if i < p && j == p {
                    assert(r[i] == s[i] && r[j] == level);
                    assert(better(side, price, s[i].price));
                } else if i == p {
                    assert(r[i] == level && r[j] == s[j - 1]);
                    assert(better(side, s[j - 1].price, price));
                } else {
                    assert(r[i] == s[i - 1] && r[j] == s[j - 1]);
                    assert(better(side, s[j - 1].price, s[i - 1].price));
                }
            }
        }
        assert(positive(r)) by {
            assert forall|i: int| 0 <= i < r.len() implies (#[trigger] r[i]).qty > 0 by {
                if i < p {
                    assert(r[i] == s[i]);
                } else if i > p {
                    assert(r[i] == s[i - 1]);
                }
            }
        }
    }
}

/// A part of a well-formed sequence is well-formed.
pub proof fn lemma_subrange_well_formed(side: Side, s: Seq<PriceLevel>, from: int, to: int)
    requires
        well_formed(side, s),
        0 <= from <= to <= s.len(),
    ensures
        well_formed(side, s.subrange(from, to)),
{
    let r = s.subrange(from, to);
    assert forall|i: int, j: int| 0 <= i < j < r.len() implies better(
        side,
        (#[trigger] r[j]).price,
        (#[trigger] r[i]).price,
    ) by {
        assert(r[i] == s[from + i] && r[j] == s[from + j]);
        assert(better(side, s[from + j].price, s[from + i].price));
    }
    assert forall|i: int| 0 <= i < r.len() implies (#[trigger] r[i]).qty > 0 by {
        assert(r[i] == s[from + i]);
    }
}

/// A trade keeps the levels strictly ordered, with no empty level.
pub proof fn law_trade_keeps_order(side: Side, s: Seq<PriceLevel>, price: i64, qty: i64)
    requires
        well_formed(side, s),
        qty >= 0,
    ensures
        well_formed(side, traded(side, s, price, qty)),
{
    lemma_position_exists(side, s, price);
    let p = position(side, s, price);
    lemma_holds_at_position(side, s, price, p);
    lemma_subrange_well_formed(side, s, 0, p);
    let r = traded(side, s, price, qty);
    if holds(s, price) && qty < s[p].qty {
        let kept = s.subrange(0, p);
        assert forall|i: int, j: int| 0 <= i < j < r.len() implies better(
            side,
            (#[trigger] r[j]).price,
            (#[trigger] r[i]).price,
        ) by {
            assert(r[i] == s[i]);
            if j < p {
                assert(r[j] == s[j]);
                assert(better(side, s[j].price, s[i].price));
            } else {
                assert(r[j].price == s[p].price);
                assert(better(side, s[p].price, s[i].price));
            }
        }
        assert forall|i: int| 0 <= i < r.len() implies (#[trigger] r[i]).qty > 0 by {
            if i < p {
                assert(r[i] == s[i]);
            } else {
                assert(s[p].qty > 0);
            }
        }
    }
}

} // verus!
