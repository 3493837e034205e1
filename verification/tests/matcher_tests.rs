use exchange_prototype::decimal::Decimal;
use exchange_prototype::order_matcher::{Match, OrderMatcher};
use exchange_prototype::order_matcher_fifo::OrderMatcherFifo;
use exchange_prototype::orderbook::{CancelLimitResult, InsertLimitResult, Orderbook};
use exchange_prototype::page::Order;
use exchange_prototype::symbol::{AskOrBid, Symbol};

fn dec(n: u32) -> Decimal {
    Decimal::from_u32(n)
}

fn queue(orderbook: &Orderbook, side: AskOrBid, price: Decimal) -> Vec<(u64, i64)> {
    let ladder = match side {
        AskOrBid::Ask => &orderbook.orders_ask,
        AskOrBid::Bid => &orderbook.orders_bid,
    };
    ladder
        .get(&price.units)
        .unwrap()
        .orders
        .iter()
        .map(|(id, units)| (*id, *units))
        .collect()
}

#[test]
fn test_match_limit_single_price_level() {
    let mut orderbook = Orderbook::new(Symbol::Asset2);
    let matcher = OrderMatcherFifo::new();

    let first_maker_id = 0;
    let second_maker_id = 1;
    let first_maker_amount = dec(32);
    let price = dec(512);

    assert_eq!(
        matcher
            .match_limit(&mut orderbook, &first_maker_id, AskOrBid::Ask, &price, &first_maker_amount)
            .is_none(),
        true
    );
    assert_eq!(orderbook.orders_ask.get(&price.units).is_some(), true);
    assert_eq!(
        orderbook.orders_ask.get(&price.units).unwrap().amount,
        first_maker_amount.units as i128
    );
    let (_id, unfilled) = orderbook
        .orders_ask
        .get(&price.units)
        .unwrap()
        .orders
        .iter()
        .next()
        .unwrap();
    assert_eq!(*unfilled, first_maker_amount.units);

    assert_eq!(
        matcher
            .match_limit(&mut orderbook, &second_maker_id, AskOrBid::Ask, &price, &dec(16))
            .is_none(),
        true
    );

    let mut taker_id = 2;
    let result = matcher
        .match_limit(&mut orderbook, &taker_id, AskOrBid::Bid, &price, &dec(31))
        .unwrap();

    assert_eq!(result.taker, taker_id);
    assert_eq!(result.makers.len(), 1);
    let (id, filled) = result.makers.iter().next().unwrap();
    assert_eq!(*id, first_maker_id);
    assert_eq!(*filled, dec(31));
    assert_eq!(orderbook.orders_index.get(&first_maker_id).is_some(), true);

    assert_eq!(orderbook.orders_ask.get(&price.units).unwrap().amount, dec(17).units as i128);

    taker_id += 1;
    let result = matcher
        .match_limit(&mut orderbook, &taker_id, AskOrBid::Bid, &price, &dec(16))
        .unwrap();

    assert_eq!(result.taker, taker_id);
    assert_eq!(result.makers.len(), 2);
    let mut iter = result.makers.iter();
    let (id, filled) = iter.next().unwrap();
    assert_eq!(*id, first_maker_id);
    assert_eq!(*filled, dec(1));
    let (id, filled) = iter.next().unwrap();
    assert_eq!(*id, second_maker_id);
    assert_eq!(*filled, dec(15));
    assert_eq!(orderbook.orders_index.get(&first_maker_id).is_some(), false);

    assert_eq!(orderbook.orders_ask.get(&price.units).unwrap().amount, dec(1).units as i128);

    taker_id += 1;
    let _result = matcher
        .match_limit(&mut orderbook, &taker_id, AskOrBid::Bid, &price, &dec(11))
        .unwrap();

    assert_eq!(orderbook.orders_ask.get(&price.units).is_none(), true);

    let new_page = orderbook.orders_bid.get(&price.units).unwrap();
    assert_eq!(new_page.amount, dec(10).units as i128);
    assert_eq!(new_page.orders.len(), 1);

    let (remaining_id, remaining_unfilled) = new_page.orders.iter().next().unwrap();
    assert_eq!(*remaining_id, taker_id);
    assert_eq!(*remaining_unfilled, dec(10).units);
}

#[test]
fn test_match_limit_multi_fill_best_price() {
    let mut orderbook = Orderbook::new(Symbol::Asset2);
    let matcher = OrderMatcherFifo::new();

    let first_maker_id = 0;
    let second_maker_id = 1;
    let first_maker_amount = dec(32);
    let price1 = dec(512);
    let price2 = dec(513);

    matcher.match_limit(&mut orderbook, &first_maker_id, AskOrBid::Ask, &price1, &first_maker_amount);
    matcher.match_limit(&mut orderbook, &second_maker_id, AskOrBid::Ask, &price2, &first_maker_amount);

    let result = matcher
        .match_limit(&mut orderbook, &3, AskOrBid::Bid, &dec(1000), &first_maker_amount)
        .unwrap();
    assert_eq!(result.makers.len(), 1);

    let mut iter = result.makers.iter();
    let (id, _filled) = iter.next().unwrap();
    assert_eq!(*id, first_maker_id);
}

#[test]
fn test_match_limit_multi_insert_remaining_amount() {
    let mut orderbook = Orderbook::new(Symbol::Asset2);
    let matcher = OrderMatcherFifo::new();

    let first_maker_id = 0;
    let second_maker_id = 1;
    let first_maker_amount = dec(32);
    let price1 = dec(512);
    let price2 = dec(518);

    matcher.match_limit(&mut orderbook, &first_maker_id, AskOrBid::Ask, &price1, &first_maker_amount);
    matcher.match_limit(&mut orderbook, &second_maker_id, AskOrBid::Ask, &price2, &first_maker_amount);

    let price_limit = Decimal { units: price2.units - dec(1).units };
    let _result = matcher
        .match_limit(&mut orderbook, &3, AskOrBid::Bid, &price_limit, &dec(100))
        .unwrap();

    let page_written = orderbook.orders_bid.get(&price_limit.units);
    assert_eq!(page_written.is_some(), true);
    let page_written = page_written.unwrap();
    assert_eq!(page_written.amount, (dec(100).units - first_maker_amount.units) as i128);
    assert_eq!(page_written.orders.len(), 1);

    let order_written = page_written.orders.iter().next();
    assert_eq!(order_written.is_some(), true);

    let order_written = order_written.unwrap();
    assert_eq!(*order_written.0, 3);
    assert_eq!(*order_written.1 as i128, page_written.amount);
}

#[test]
fn test_match_limit_multi_maker_prices() {
    let mut orderbook = Orderbook::new(Symbol::Asset2);
    let matcher = OrderMatcherFifo::new();

    let mut order_id = 0;
    let first_maker_amount = dec(32);
    matcher.match_limit(&mut orderbook, &order_id, AskOrBid::Bid, &dec(4233), &first_maker_amount);

    order_id += 1;
    matcher.match_limit(&mut orderbook, &order_id, AskOrBid::Bid, &dec(700), &first_maker_amount);

    order_id += 1;
    matcher.match_limit(&mut orderbook, &order_id, AskOrBid::Bid, &dec(700), &first_maker_amount);

    let price_no_touch = dec(678);
    order_id += 1;
    matcher.match_limit(&mut orderbook, &order_id, AskOrBid::Bid, &price_no_touch, &first_maker_amount);

    order_id += 1;
    let result = matcher
        .match_limit(
            &mut orderbook,
            &order_id,
            AskOrBid::Ask,
            &dec(679),
            &Decimal { units: 4 * first_maker_amount.units },
        )
        .unwrap();

    assert_eq!(orderbook.orders_bid.len(), 1);
    assert_eq!(orderbook.orders_bid.get(&price_no_touch.units).is_some(), true);
    assert_eq!(
        *orderbook
            .orders_bid
            .get(&price_no_touch.units)
            .unwrap()
            .orders
            .iter()
            .next()
            .unwrap()
            .0,
        order_id - 1
    );

    assert_eq!(result.makers.len(), 3);
    for i in 0..3 {
        let (order_id, _price) = result.makers.get(i).unwrap();
        assert_eq!(*order_id, i as u64);
    }
}

#[test]
fn test_match_endless_loop() {
    let mut orderbook = Orderbook::new(Symbol::Asset2);
    let matcher = OrderMatcherFifo::new();

    matcher.match_limit(&mut orderbook, &2, AskOrBid::Bid, &dec(7), &dec(1));
    matcher.match_limit(&mut orderbook, &3, AskOrBid::Ask, &dec(7), &dec(1));
    matcher.match_limit(&mut orderbook, &7, AskOrBid::Ask, &dec(6), &dec(1));
}

fn place(
    orderbook: &mut Orderbook,
    id: u64,
    side: AskOrBid,
    price: u32,
    size: u32,
) -> InsertLimitResult {
    let matcher = OrderMatcherFifo::new();
    orderbook.insert_try_exec_limit(&matcher, Order { id, unfilled: dec(size) }, side, &dec(price))
}

#[test]
fn test_single_level_fifo() {
    let mut book = Orderbook::new(Symbol::Asset1);
    assert_eq!(place(&mut book, 1, AskOrBid::Ask, 512, 32), InsertLimitResult::Success(1));
    assert_eq!(place(&mut book, 2, AskOrBid::Ask, 512, 16), InsertLimitResult::Success(2));
    assert_eq!(place(&mut book, 3, AskOrBid::Bid, 512, 31), InsertLimitResult::FullyFilled);
    assert_eq!(book.orders_ask.get(&dec(512).units).unwrap().amount, dec(17).units as i128);
    assert_eq!(
        queue(&book, AskOrBid::Ask, dec(512)),
        vec![(1, dec(1).units), (2, dec(16).units)]
    );
    assert_eq!(book.contains_order(&3), false);
    assert_eq!(book.get_best_bid(), None);
}

#[test]
fn test_cross_level_best_price_first() {
    let mut book = Orderbook::new(Symbol::Asset1);
    let matcher = OrderMatcherFifo::new();
    place(&mut book, 1, AskOrBid::Ask, 512, 32);
    place(&mut book, 2, AskOrBid::Ask, 513, 32);
    let m: Match = matcher
        .match_limit(&mut book, &3, AskOrBid::Bid, &dec(1000), &dec(32))
        .unwrap();
    assert_eq!(m.makers, vec![(1, dec(32))]);
    assert_eq!(m.fully_filled, true);
    assert_eq!(m.residual, Decimal::zero());
    assert_eq!(m.taker, 3);
    assert_eq!(queue(&book, AskOrBid::Ask, dec(513)), vec![(2, dec(32).units)]);
    assert_eq!(book.get_best_ask(), Some(dec(513)));
    assert_eq!(book.contains_order(&1), false);
}

#[test]
fn test_residual_rests_at_limit() {
    let mut book = Orderbook::new(Symbol::Asset1);
    place(&mut book, 1, AskOrBid::Ask, 512, 32);
    place(&mut book, 2, AskOrBid::Ask, 518, 32);
    assert_eq!(
        place(&mut book, 3, AskOrBid::Bid, 517, 100),
        InsertLimitResult::PartiallyFilled(3, dec(68))
    );
    assert_eq!(queue(&book, AskOrBid::Bid, dec(517)), vec![(3, dec(68).units)]);
    assert_eq!(book.orders_bid.get(&dec(517).units).unwrap().amount, dec(68).units as i128);
    assert_eq!(queue(&book, AskOrBid::Ask, dec(518)), vec![(2, dec(32).units)]);
    assert_eq!(book.orders_ask.len(), 1);
    assert_eq!(book.can_match(), false);
}

#[test]
fn test_multi_maker_sweep() {
    let mut book = Orderbook::new(Symbol::Asset1);
    let matcher = OrderMatcherFifo::new();
    place(&mut book, 1, AskOrBid::Bid, 4233, 32);
    place(&mut book, 2, AskOrBid::Bid, 700, 32);
    place(&mut book, 3, AskOrBid::Bid, 700, 32);
    place(&mut book, 4, AskOrBid::Bid, 678, 32);
    let m = matcher
        .match_limit(&mut book, &5, AskOrBid::Ask, &dec(679), &dec(128))
        .unwrap();
    assert_eq!(m.makers, vec![(1, dec(32)), (2, dec(32)), (3, dec(32))]);
    assert_eq!(m.residual, dec(32));
    assert_eq!(m.fully_filled, false);
    let taken: i64 = m.makers.iter().map(|maker| maker.1.units).sum();
    assert_eq!(taken, dec(128).units - m.residual.units);
    assert_eq!(queue(&book, AskOrBid::Ask, dec(679)), vec![(5, dec(32).units)]);
    assert_eq!(queue(&book, AskOrBid::Bid, dec(678)), vec![(4, dec(32).units)]);
    assert_eq!(book.orders_bid.len(), 1);
    assert_eq!(book.orders_index.len(), 2);
}

#[test]
fn test_validation() {
    let mut book = Orderbook::new(Symbol::Asset1);
    assert_eq!(place(&mut book, 1, AskOrBid::Bid, 0, 10), InsertLimitResult::OrderDataInvalid);
    assert_eq!(place(&mut book, 1, AskOrBid::Bid, 10, 0), InsertLimitResult::OrderDataInvalid);
    let matcher = OrderMatcherFifo::new();
    assert_eq!(
        book.insert_try_exec_limit(
            &matcher,
            Order { id: 1, unfilled: dec(10) },
            AskOrBid::Bid,
            &Decimal { units: -5 }
        ),
        InsertLimitResult::OrderDataInvalid
    );
    assert_eq!(
        book.insert_try_exec_limit(
            &matcher,
            Order { id: 1, unfilled: Decimal { units: -5 } },
            AskOrBid::Bid,
            &dec(10)
        ),
        InsertLimitResult::OrderDataInvalid
    );
    assert!(book.orders_index.is_empty());
    assert_eq!(place(&mut book, 1, AskOrBid::Bid, 10, 10), InsertLimitResult::Success(1));
    assert_eq!(place(&mut book, 1, AskOrBid::Bid, 11, 10), InsertLimitResult::OrderDataInvalid);
    assert_eq!(place(&mut book, 1, AskOrBid::Ask, 5, 10), InsertLimitResult::OrderDataInvalid);
    assert_eq!(queue(&book, AskOrBid::Bid, dec(10)), vec![(1, dec(10).units)]);
    assert_eq!(book.orders_bid.len(), 1);
}

#[test]
fn test_partial_fill_keeps_time_priority() {
    let mut book = Orderbook::new(Symbol::Asset1);
    let matcher = OrderMatcherFifo::new();
    place(&mut book, 1, AskOrBid::Ask, 100, 10);
    place(&mut book, 2, AskOrBid::Ask, 100, 10);
    assert_eq!(place(&mut book, 3, AskOrBid::Bid, 100, 4), InsertLimitResult::FullyFilled);
    assert_eq!(
        queue(&book, AskOrBid::Ask, dec(100)),
        vec![(1, dec(6).units), (2, dec(10).units)]
    );
    let m = matcher
        .match_limit(&mut book, &4, AskOrBid::Bid, &dec(100), &dec(8))
        .unwrap();
    assert_eq!(m.makers, vec![(1, dec(6)), (2, dec(2))]);
    assert_eq!(queue(&book, AskOrBid::Ask, dec(100)), vec![(2, dec(8).units)]);
}

#[test]
fn test_market_order_drops_what_is_left() {
    let mut book = Orderbook::new(Symbol::Asset1);
    let matcher = OrderMatcherFifo::new();
    place(&mut book, 1, AskOrBid::Ask, 100, 10);
    place(&mut book, 2, AskOrBid::Ask, 900, 10);
    let m = matcher
        .match_market(&mut book, &3, AskOrBid::Bid, &dec(25))
        .unwrap();
    assert_eq!(m.makers, vec![(1, dec(10)), (2, dec(10))]);
    assert_eq!(m.residual, dec(5));
    assert_eq!(m.fully_filled, false);
    assert!(book.orders_ask.is_empty());
    assert!(book.orders_bid.is_empty());
    assert!(book.orders_index.is_empty());
    assert!(matcher.match_market(&mut book, &4, AskOrBid::Ask, &dec(5)).is_none());
    assert!(book.orders_ask.is_empty());

    place(&mut book, 5, AskOrBid::Bid, 50, 10);
    let m = matcher
        .match_market(&mut book, &6, AskOrBid::Ask, &dec(4))
        .unwrap();
    assert_eq!(m.makers, vec![(5, dec(4))]);
    assert_eq!(m.fully_filled, true);
    assert_eq!(queue(&book, AskOrBid::Bid, dec(50)), vec![(5, dec(6).units)]);
}

#[test]
fn test_round_trip_leaves_an_empty_book() {
    let mut book = Orderbook::new(Symbol::Asset1);
    for id in 1..=20u64 {
        let (side, price) = if id % 2 == 0 {
            (AskOrBid::Ask, 1000 + (id as u32 % 5))
        } else {
            (AskOrBid::Bid, 900 + (id as u32 % 5))
        };
        assert_eq!(place(&mut book, id, side, price, 10), InsertLimitResult::Success(id));
        assert_eq!(book.can_match(), false);
    }
    assert_eq!(book.orders_index.len(), 20);
    for id in 1..=20u64 {
        assert_eq!(book.cancel_limit(&id), CancelLimitResult::Success);
    }
    assert!(book.orders_ask.is_empty());
    assert!(book.orders_bid.is_empty());
    assert!(book.orders_index.is_empty());
}

#[test]
fn test_every_page_caches_its_total() {
    let mut book = Orderbook::new(Symbol::Asset1);
    place(&mut book, 1, AskOrBid::Ask, 100, 10);
    place(&mut book, 2, AskOrBid::Ask, 100, 7);
    place(&mut book, 3, AskOrBid::Ask, 101, 5);
    place(&mut book, 4, AskOrBid::Bid, 100, 12);
    book.cancel_limit(&3);
    for (price, page) in book.orders_ask.iter().chain(book.orders_bid.iter()) {
        let total: i128 = page.orders.iter().map(|(_, units)| *units as i128).sum();
        assert_eq!(page.amount, total);
        assert!(page.orders.len() >= 1);
        assert!(page.amount > 0);
        for (id, _) in page.orders.iter() {
            assert_eq!(book.orders_index.get(id), Some(price));
        }
    }
    assert_eq!(queue(&book, AskOrBid::Ask, dec(100)), vec![(2, dec(5).units)]);
    assert_eq!(book.orders_index.len(), 1);
}

#[test]
fn test_each_take_is_the_decrease_of_its_maker() {
    let mut book = Orderbook::new(Symbol::Asset1);
    let matcher = OrderMatcherFifo::new();
    place(&mut book, 1, AskOrBid::Ask, 100, 10);
    place(&mut book, 2, AskOrBid::Ask, 100, 20);
    place(&mut book, 3, AskOrBid::Ask, 105, 30);
    place(&mut book, 4, AskOrBid::Ask, 110, 40);
    let before: Vec<i64> = (1..=4u64)
        .map(|id| book.get_order_mut(&id).map_or(0, |order| order.unfilled.units))
        .collect();
    let m = matcher
        .match_limit(&mut book, &5, AskOrBid::Bid, &dec(105), &dec(45))
        .unwrap();
    assert_eq!(m.makers, vec![(1, dec(10)), (2, dec(20)), (3, dec(15))]);
    assert_eq!(m.residual, Decimal::zero());
    for (id, take) in m.makers.iter() {
        let after = book.get_order_mut(id).map_or(0, |order| order.unfilled.units);
        assert_eq!(take.units, before[*id as usize - 1] - after);
    }
    assert_eq!(book.get_order_mut(&4).unwrap().unfilled, dec(40));
    assert_eq!(book.get_order_mut(&3).unwrap().unfilled, dec(15));
    assert_eq!(book.contains_order(&5), false);
}

#[test]
fn test_raw_insert_that_stays_clear_does_not_cross() {
    let mut book = Orderbook::new(Symbol::Asset1);
    book.insert_limit(Order { id: 1, unfilled: dec(5) }, AskOrBid::Ask, dec(100));
    book.insert_limit(Order { id: 2, unfilled: dec(5) }, AskOrBid::Bid, dec(99));
    assert_eq!(book.can_match(), false);
    assert_eq!(book.get_best_ask(), Some(dec(100)));
    assert_eq!(book.get_best_bid(), Some(dec(99)));
}
