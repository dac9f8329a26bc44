use price_ladder::common::{LadderError, Side};
use price_ladder::ladder::{Book, PriceLevel, SearchPolicy};
use price_ladder::level::{LadderEvent, RecordingListener};

fn level(price: i64, qty: i64) -> PriceLevel {
    PriceLevel { price, qty, no_of_orders: 0 }
}

#[test]
fn test_initialize_book() {
    let event_listener = RecordingListener::new();
    let book = Book::new(event_listener);
    assert_eq!(0, book.asks().count());
    assert_eq!(0, book.bids().count());
    assert_eq!(true, book.asks().best().is_none());
    assert_eq!(true, book.asks().worst().is_none());
    assert_eq!(true, book.bids().best().is_none());
    assert_eq!(true, book.bids().worst().is_none());
}

#[test]
fn test_add_bids() {
    let event_listener = RecordingListener::new();
    let mut book = Book::new(event_listener);
    book.begin().unwrap();
    book.update_bid(7, 99, 0).unwrap();
    book.update_bid(8, 100, 0).unwrap();
    book.update_bid(6, 98, 0).unwrap();
    book.update_bid(9, 101, 0).unwrap();
    book.end().unwrap();

    // verify len
    assert_eq!(4, book.bids().count());

    // verify best bid, worst bid
    assert_eq!(PriceLevel { price: 9, qty: 101, no_of_orders: 0 }, *book.bids().best().unwrap());
    assert_eq!(PriceLevel { price: 6, qty: 98, no_of_orders: 0 }, *book.bids().worst().unwrap());

    // verify levels
    assert_eq!(PriceLevel { price: 9, qty: 101, no_of_orders: 0 }, *book.bids().get(0).unwrap());
    assert_eq!(PriceLevel { price: 8, qty: 100, no_of_orders: 0 }, *book.bids().get(1).unwrap());
    assert_eq!(PriceLevel { price: 7, qty: 99, no_of_orders: 0 }, *book.bids().get(2).unwrap());
    assert_eq!(PriceLevel { price: 6, qty: 98, no_of_orders: 0 }, *book.bids().get(3).unwrap());

    // perform some updates
    book.begin().unwrap();
    book.update_bid(7, 0, 0).unwrap();
    book.update_bid(9, 200, 0).unwrap();
    book.end().unwrap();

    // verify len
    assert_eq!(3, book.bids().count());
    assert_eq!(PriceLevel { price: 9, qty: 200, no_of_orders: 0 }, *book.bids().best().unwrap());
}

#[test]
fn test_add_asks() {
    let event_listener = RecordingListener::new();
    let mut book = Book::new(event_listener);
    book.begin().unwrap();
    book.update_ask(13, 99, 0).unwrap();
    book.update_ask(11, 100, 0).unwrap();
    book.update_ask(12, 98, 0).unwrap();
    book.update_ask(10, 101, 0).unwrap();
    book.end().unwrap();

    // verify len
    assert_eq!(4, book.asks().count());

    // verify best ask, worst ask
    assert_eq!(PriceLevel { price: 10, qty: 101, no_of_orders: 0 }, *book.asks().best().unwrap());
    assert_eq!(PriceLevel { price: 13, qty: 99, no_of_orders: 0 }, *book.asks().worst().unwrap());

    // verify levels
    assert_eq!(PriceLevel { price: 10, qty: 101, no_of_orders: 0 }, *book.asks().get(0).unwrap());
    assert_eq!(PriceLevel { price: 11, qty: 100, no_of_orders: 0 }, *book.asks().get(1).unwrap());
    assert_eq!(PriceLevel { price: 12, qty: 98, no_of_orders: 0 }, *book.asks().get(2).unwrap());
    assert_eq!(PriceLevel { price: 13, qty: 99, no_of_orders: 0 }, *book.asks().get(3).unwrap());

    // perform some updates
    book.begin().unwrap();
    book.update_ask(12, 0, 0).unwrap();
    book.update_ask(10, 200, 0).unwrap();
    book.end().unwrap();

    // verify len
    assert_eq!(3, book.asks().count());
    assert_eq!(PriceLevel { price: 10, qty: 200, no_of_orders: 0 }, *book.asks().best().unwrap());
}

fn four_bids(policy: SearchPolicy) -> Book<RecordingListener> {
    let mut book = Book::with_policy(RecordingListener::new(), policy);
    book.begin().unwrap();
    book.update_bid(7, 99, 1).unwrap();
    book.update_bid(8, 100, 2).unwrap();
    book.update_bid(6, 98, 3).unwrap();
    book.update_bid(9, 101, 4).unwrap();
    book
}

fn four_asks(policy: SearchPolicy) -> Book<RecordingListener> {
    let mut book = Book::with_policy(RecordingListener::new(), policy);
    book.begin().unwrap();
    book.update_ask(13, 99, 0).unwrap();
    book.update_ask(11, 100, 0).unwrap();
    book.update_ask(12, 98, 0).unwrap();
    book.update_ask(10, 101, 0).unwrap();
    book
}

fn prices(levels: &[PriceLevel]) -> Vec<i64> {
    let mut out = Vec::new();
    for l in levels {
        out.push(l.price);
    }
    out
}

#[test]
fn bids_read_from_best_to_worst() {
    let book = four_bids(SearchPolicy::Binary);
    assert_eq!(prices(&book.bids().iter()), vec![9, 8, 7, 6]);
    assert_eq!(book.bids().iter()[0], PriceLevel { price: 9, qty: 101, no_of_orders: 4 });
}

#[test]
fn asks_read_from_best_to_worst() {
    let book = four_asks(SearchPolicy::Binary);
    assert_eq!(prices(&book.asks().iter()), vec![10, 11, 12, 13]);
    assert_eq!(*book.asks().best().unwrap(), level(10, 101));
    assert_eq!(*book.asks().worst().unwrap(), level(13, 99));
}

#[test]
fn each_insert_fires_one_add() {
    let book = four_bids(SearchPolicy::Binary);
    assert_eq!(
        book.listener().events,
        vec![
            LadderEvent::Add(Side::BUY, PriceLevel { price: 7, qty: 99, no_of_orders: 1 }),
            LadderEvent::Add(Side::BUY, PriceLevel { price: 8, qty: 100, no_of_orders: 2 }),
            LadderEvent::Add(Side::BUY, PriceLevel { price: 6, qty: 98, no_of_orders: 3 }),
            LadderEvent::Add(Side::BUY, PriceLevel { price: 9, qty: 101, no_of_orders: 4 }),
        ]
    );
}

#[test]
fn new_extremes_become_best_and_worst() {
    let mut book = Book::new(RecordingListener::new());
    book.begin().unwrap();
    book.update_ask(50, 1, 0).unwrap();
    assert_eq!(*book.asks().best().unwrap(), level(50, 1));
    assert_eq!(*book.asks().worst().unwrap(), level(50, 1));
    book.update_ask(40, 2, 0).unwrap();
    assert_eq!(*book.asks().best().unwrap(), level(40, 2));
    assert_eq!(*book.asks().worst().unwrap(), level(50, 1));
    book.update_ask(60, 3, 0).unwrap();
    assert_eq!(*book.asks().best().unwrap(), level(40, 2));
    assert_eq!(*book.asks().worst().unwrap(), level(60, 3));
    book.update_ask(45, 4, 0).unwrap();
    assert_eq!(*book.asks().best().unwrap(), level(40, 2));
    assert_eq!(*book.asks().worst().unwrap(), level(60, 3));
    assert_eq!(prices(&book.asks().iter()), vec![40, 45, 50, 60]);
}

#[test]
fn zero_quantity_removes_with_one_event() {
    let mut book = four_bids(SearchPolicy::Binary);
    let before = book.listener().events.len();
    book.update_bid(7, 0, 9).unwrap();
    assert_eq!(prices(&book.bids().iter()), vec![9, 8, 6]);
    assert_eq!(book.listener().events.len(), before + 1);
    assert_eq!(
        book.listener().events[before],
        LadderEvent::Remove(Side::BUY, PriceLevel { price: 7, qty: 99, no_of_orders: 1 })
    );
}

#[test]
fn zero_quantity_on_absent_price_does_nothing() {
    let mut book = four_bids(SearchPolicy::Binary);
    let before = book.listener().events.len();
    book.update_bid(5, 0, 0).unwrap();
    book.update_bid(10, 0, 0).unwrap();
    assert_eq!(prices(&book.bids().iter()), vec![9, 8, 7, 6]);
    assert_eq!(book.listener().events.len(), before);
}

#[test]
fn changed_quantity_fires_one_update() {
    let mut book = four_bids(SearchPolicy::Binary);
    let before = book.listener().events.len();
    book.update_bid(8, 250, 7).unwrap();
    assert_eq!(*book.bids().get(1).unwrap(), PriceLevel { price: 8, qty: 250, no_of_orders: 7 });
    assert_eq!(book.bids().count(), 4);
    assert_eq!(book.listener().events.len(), before + 1);
    assert_eq!(
        book.listener().events[before],
        LadderEvent::Update(
            Side::BUY,
            PriceLevel { price: 8, qty: 100, no_of_orders: 2 },
            PriceLevel { price: 8, qty: 250, no_of_orders: 7 }
        )
    );
}

#[test]
fn same_quantity_fires_nothing() {
    let mut book = four_bids(SearchPolicy::Binary);
    let before = book.listener().events.len();
    book.update_bid(8, 100, 2).unwrap();
    book.update_bid(8, 100, 5).unwrap();
    assert_eq!(*book.bids().get(1).unwrap(), PriceLevel { price: 8, qty: 100, no_of_orders: 2 });
    assert_eq!(book.listener().events.len(), before);
}

#[test]
fn mutators_need_an_open_batch() {
    let mut book = Book::new(RecordingListener::new());
    for _ in 0..3 {
        assert_eq!(book.update_bid(7, 99, 0), Err(LadderError::InvalidCall));
        assert_eq!(book.update_ask(7, 99, 0), Err(LadderError::InvalidCall));
        assert_eq!(book.apply_trade(7, 1, true), Err(LadderError::InvalidCall));
        assert_eq!(book.apply_trade(7, 1, false), Err(LadderError::InvalidCall));
        assert_eq!(book.remove_levels_before_bid(7), Err(LadderError::InvalidCall));
        assert_eq!(book.remove_levels_before_ask(7), Err(LadderError::InvalidCall));
    }
    assert_eq!(book.bids().count(), 0);
    assert_eq!(book.asks().count(), 0);

    book.begin().unwrap();
    book.update_bid(7, 99, 0).unwrap();
    book.update_ask(8, 10, 0).unwrap();
    book.end().unwrap();
    let heard = book.listener().events.len();

    for _ in 0..3 {
        assert_eq!(book.update_bid(7, 0, 0), Err(LadderError::InvalidCall));
        assert_eq!(book.update_ask(8, 0, 0), Err(LadderError::InvalidCall));
        assert_eq!(book.apply_trade(7, 100, true), Err(LadderError::InvalidCall));
        assert_eq!(book.apply_trade(8, 100, false), Err(LadderError::InvalidCall));
        assert_eq!(book.remove_levels_before_bid(100), Err(LadderError::InvalidCall));
        assert_eq!(book.remove_levels_before_ask(0), Err(LadderError::InvalidCall));
    }
    assert_eq!(*book.bids().best().unwrap(), level(7, 99));
    assert_eq!(*book.asks().best().unwrap(), level(8, 10));
    assert_eq!(book.listener().events.len(), heard);
}

#[test]
fn begin_and_end_must_alternate() {
    let mut book = Book::new(RecordingListener::new());
    assert_eq!(book.end(), Err(LadderError::InvalidCall));
    assert_eq!(book.begin(), Ok(()));
    assert_eq!(book.begin(), Err(LadderError::InvalidCall));
    assert!(book.bids().in_batch());
    assert!(book.asks().in_batch());
    assert_eq!(book.end(), Ok(()));
    assert_eq!(book.end(), Err(LadderError::InvalidCall));
    assert!(!book.bids().in_batch());
    assert!(!book.asks().in_batch());
    assert_eq!(book.begin(), Ok(()));
}

#[test]
fn trade_that_covers_the_level_removes_it() {
    let mut book = four_bids(SearchPolicy::Binary);
    let before = book.listener().events.len();
    book.apply_trade(9, 101, true).unwrap();
    assert_eq!(prices(&book.bids().iter()), vec![8, 7, 6]);
    assert_eq!(
        book.listener().events[before..],
        [LadderEvent::Remove(Side::BUY, PriceLevel { price: 9, qty: 101, no_of_orders: 4 })]
    );
    book.apply_trade(8, 5000, true).unwrap();
    assert_eq!(prices(&book.bids().iter()), vec![7, 6]);
}

#[test]
fn partial_trade_reduces_the_quantity() {
    let mut book = four_bids(SearchPolicy::Binary);
    let before = book.listener().events.len();
    book.apply_trade(9, 30, true).unwrap();
    assert_eq!(*book.bids().best().unwrap(), PriceLevel { price: 9, qty: 71, no_of_orders: 4 });
    assert_eq!(book.bids().count(), 4);
    assert_eq!(
        book.listener().events[before..],
        [LadderEvent::Update(
            Side::BUY,
            PriceLevel { price: 9, qty: 101, no_of_orders: 4 },
            PriceLevel { price: 9, qty: 71, no_of_orders: 4 }
        )]
    );
    assert_eq!(*book.bids().get(1).unwrap(), PriceLevel { price: 8, qty: 100, no_of_orders: 2 });
    assert_eq!(*book.bids().get(2).unwrap(), PriceLevel { price: 7, qty: 99, no_of_orders: 1 });
    assert_eq!(*book.bids().get(3).unwrap(), PriceLevel { price: 6, qty: 98, no_of_orders: 3 });
}

#[test]
fn trade_behind_the_touch_removes_the_better_levels() {
    let mut book = four_bids(SearchPolicy::Binary);
    let before = book.listener().events.len();
    book.apply_trade(7, 9, true).unwrap();
    assert_eq!(book.bids().iter(), vec![
        PriceLevel { price: 7, qty: 90, no_of_orders: 1 },
        PriceLevel { price: 6, qty: 98, no_of_orders: 3 },
    ]);
    assert_eq!(
        book.listener().events[before..],
        [
            LadderEvent::Remove(Side::BUY, PriceLevel { price: 8, qty: 100, no_of_orders: 2 }),
            LadderEvent::Remove(Side::BUY, PriceLevel { price: 9, qty: 101, no_of_orders: 4 }),
            LadderEvent::Update(
                Side::BUY,
                PriceLevel { price: 7, qty: 99, no_of_orders: 1 },
                PriceLevel { price: 7, qty: 90, no_of_orders: 1 }
            ),
        ]
    );
}

#[test]
fn trade_at_the_far_end_removes_all_that_is_better() {
    let mut book = four_bids(SearchPolicy::Linear);
    let before = book.listener().events.len();
    book.apply_trade(6, 98, true).unwrap();
    assert_eq!(book.bids().count(), 0);
    assert_eq!(
        book.listener().events[before..],
        [
            LadderEvent::Remove(Side::BUY, PriceLevel { price: 7, qty: 99, no_of_orders: 1 }),
            LadderEvent::Remove(Side::BUY, PriceLevel { price: 8, qty: 100, no_of_orders: 2 }),
            LadderEvent::Remove(Side::BUY, PriceLevel { price: 9, qty: 101, no_of_orders: 4 }),
            LadderEvent::Remove(Side::BUY, PriceLevel { price: 6, qty: 98, no_of_orders: 3 }),
        ]
    );

    let mut book = four_bids(SearchPolicy::Binary);
    book.apply_trade(6, 0, true).unwrap();
    assert_eq!(book.bids().iter(), vec![PriceLevel { price: 6, qty: 98, no_of_orders: 3 }]);
    assert_eq!(
        *book.listener().events.last().unwrap(),
        LadderEvent::Update(
            Side::BUY,
            PriceLevel { price: 6, qty: 98, no_of_orders: 3 },
            PriceLevel { price: 6, qty: 98, no_of_orders: 3 }
        )
    );
}

#[test]
fn trade_on_the_only_level() {
    let mut book = Book::new(RecordingListener::new());
    book.begin().unwrap();
    book.update_ask(10, 5, 1).unwrap();
    book.apply_trade(10, 2, false).unwrap();
    assert_eq!(book.asks().iter(), vec![PriceLevel { price: 10, qty: 3, no_of_orders: 1 }]);
    book.apply_trade(10, 3, false).unwrap();
    assert_eq!(book.asks().count(), 0);
    assert_eq!(
        book.listener().events,
        vec![
            LadderEvent::Add(Side::SELL, PriceLevel { price: 10, qty: 5, no_of_orders: 1 }),
            LadderEvent::Update(
                Side::SELL,
                PriceLevel { price: 10, qty: 5, no_of_orders: 1 },
                PriceLevel { price: 10, qty: 3, no_of_orders: 1 }
            ),
            LadderEvent::Remove(Side::SELL, PriceLevel { price: 10, qty: 3, no_of_orders: 1 }),
        ]
    );
}

#[test]
fn trade_at_an_absent_price_removes_what_it_crossed() {
    let mut book = four_asks(SearchPolicy::Binary);
    book.update_bid(5, 1, 0).unwrap();
    let before = book.listener().events.len();
    // 11.5 is not an ask: the asks at 10 and 11 are better than it and leave.
    book.apply_trade(115, 1, false).unwrap();
    assert_eq!(prices(&book.asks().iter()), vec![]);
    assert_eq!(book.listener().events.len(), before + 4);

    let mut book = four_asks(SearchPolicy::Binary);
    book.update_bid(5, 1, 0).unwrap();
    book.update_ask(20, 7, 0).unwrap();
    let before = book.listener().events.len();
    book.apply_trade(15, 1, false).unwrap();
    assert_eq!(book.asks().iter(), vec![level(20, 7)]);
    assert_eq!(
        book.listener().events[before..],
        [
            LadderEvent::Remove(Side::SELL, level(13, 99)),
            LadderEvent::Remove(Side::SELL, level(12, 98)),
            LadderEvent::Remove(Side::SELL, level(11, 100)),
            LadderEvent::Remove(Side::SELL, level(10, 101)),
        ]
    );
    // the other side is not touched
    assert_eq!(book.bids().iter(), vec![level(5, 1)]);
    book.apply_trade(9, 1, false).unwrap();
    assert_eq!(book.asks().iter(), vec![level(20, 7)]);
}

#[test]
fn trade_goes_to_the_resting_side() {
    let mut book = Book::new(RecordingListener::new());
    book.begin().unwrap();
    book.update_bid(10, 5, 0).unwrap();
    book.update_ask(10, 8, 0).unwrap();
    book.apply_trade(10, 1, true).unwrap();
    assert_eq!(*book.bids().best().unwrap(), level(10, 4));
    assert_eq!(*book.asks().best().unwrap(), level(10, 8));
    book.apply_trade(10, 2, false).unwrap();
    assert_eq!(*book.bids().best().unwrap(), level(10, 4));
    assert_eq!(*book.asks().best().unwrap(), level(10, 6));
}

#[test]
fn remove_levels_before_drops_the_worse_bids() {
    let mut book = four_bids(SearchPolicy::Binary);
    let before = book.listener().events.len();
    book.remove_levels_before_bid(8).unwrap();
    assert_eq!(book.bids().iter(), vec![
        PriceLevel { price: 9, qty: 101, no_of_orders: 4 },
        PriceLevel { price: 8, qty: 100, no_of_orders: 2 },
    ]);
    assert_eq!(
        book.listener().events[before..],
        [
            LadderEvent::Remove(Side::BUY, PriceLevel { price: 6, qty: 98, no_of_orders: 3 }),
            LadderEvent::Remove(Side::BUY, PriceLevel { price: 7, qty: 99, no_of_orders: 1 }),
        ]
    );
    let before = book.listener().events.len();
    book.remove_levels_before_bid(2).unwrap();
    assert_eq!(book.bids().count(), 2);
    assert_eq!(book.listener().events.len(), before);
    book.remove_levels_before_bid(100).unwrap();
    assert_eq!(book.bids().count(), 0);
    assert_eq!(book.listener().events.len(), before + 2);
}

#[test]
fn remove_levels_before_drops_the_worse_asks() {
    let mut book = four_asks(SearchPolicy::Binary);
    let before = book.listener().events.len();
    // no ask stands at 115: the asks above it leave
    book.update_ask(20, 1, 0).unwrap();
    book.remove_levels_before_ask(12).unwrap();
    assert_eq!(book.asks().iter(), vec![level(10, 101), level(11, 100), level(12, 98)]);
    assert_eq!(
        book.listener().events[before + 1..],
        [LadderEvent::Remove(Side::SELL, level(20, 1)), LadderEvent::Remove(Side::SELL, level(13, 99))]
    );
    book.update_bid(3, 1, 0).unwrap();
    book.remove_levels_before_ask(9).unwrap();
    assert_eq!(book.asks().count(), 0);
    assert_eq!(book.bids().count(), 1);
}

#[test]
fn the_listener_comes_back_with_its_history() {
    let mut book = Book::new(RecordingListener::new());
    book.begin().unwrap();
    book.update_ask(10, 5, 1).unwrap();
    book.update_ask(10, 6, 2).unwrap();
    book.end().unwrap();
    let heard = book.into_listener();
    assert_eq!(
        heard.events,
        vec![
            LadderEvent::Add(Side::SELL, PriceLevel { price: 10, qty: 5, no_of_orders: 1 }),
            LadderEvent::Update(
                Side::SELL,
                PriceLevel { price: 10, qty: 5, no_of_orders: 1 },
                PriceLevel { price: 10, qty: 6, no_of_orders: 2 }
            ),
        ]
    );
}

#[test]
fn clear_is_silent_and_needs_no_batch() {
    let mut book = four_bids(SearchPolicy::Binary);
    book.update_ask(20, 3, 0).unwrap();
    book.end().unwrap();
    let heard = book.listener().events.len();
    book.clear();
    assert_eq!(book.bids().count(), 0);
    assert_eq!(book.asks().count(), 0);
    assert_eq!(book.listener().events.len(), heard);
    assert!(!book.bids().in_batch());
    assert_eq!(book.begin(), Ok(()));
}

#[test]
fn depth_zero_is_best_and_last_depth_is_worst() {
    let book = four_bids(SearchPolicy::Binary);
    let n = book.bids().count();
    assert_eq!(book.bids().get(0), book.bids().best());
    assert_eq!(book.bids().get(n - 1), book.bids().worst());
    assert_eq!(book.bids().get(n), None);
    assert_eq!(book.bids().get(usize::MAX), None);
    let book = four_asks(SearchPolicy::Linear);
    let n = book.asks().count();
    assert_eq!(book.asks().get(0), book.asks().best());
    assert_eq!(book.asks().get(n - 1), book.asks().worst());
    assert_eq!(book.asks().get(0).unwrap().price, 10);
}

#[test]
fn both_policies_behave_alike() {
    let mut a = four_bids(SearchPolicy::Binary);
    let mut b = four_bids(SearchPolicy::Linear);
    assert_eq!(a.bids().policy(), SearchPolicy::Binary);
    assert_eq!(b.bids().policy(), SearchPolicy::Linear);
    let steps: [(i64, i64, u16); 8] =
        [(5, 10, 1), (10, 20, 1), (7, 0, 0), (7, 33, 2), (8, 100, 9), (8, 101, 9), (1, 0, 0), (6, 0, 0)];
    for (price, qty, n) in steps {
        a.update_bid(price, qty, n).unwrap();
        b.update_bid(price, qty, n).unwrap();
        a.update_ask(price, qty, n).unwrap();
        b.update_ask(price, qty, n).unwrap();
        assert_eq!(a.bids().iter(), b.bids().iter());
        assert_eq!(a.asks().iter(), b.asks().iter());
    }
    a.apply_trade(8, 1, true).unwrap();
    b.apply_trade(8, 1, true).unwrap();
    a.remove_levels_before_ask(8).unwrap();
    b.remove_levels_before_ask(8).unwrap();
    assert_eq!(a.bids().iter(), b.bids().iter());
    assert_eq!(a.asks().iter(), b.asks().iter());
    assert_eq!(prices(&a.bids().iter()), vec![8, 7, 5]);
    assert_eq!(prices(&a.asks().iter()), vec![5, 7, 8]);
    assert_eq!(a.listener().events, b.listener().events);
}
