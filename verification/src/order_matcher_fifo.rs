//! Matching by price-time priority: the best price first, and the oldest order first within
//! a price.

use crate::book_view::{lemma_rest_uncrossed, lemma_subset_uncrossed, BookView};
use crate::decimal::Decimal;
use crate::ladder::{best_price, is_best, marketable};
use crate::order_matcher::{fills_view, Match, OrderMatcher, Outcome};
use crate::orderbook::Orderbook;
use crate::page::Order;
use crate::symbol::AskOrBid;
use crate::OrderId;
use vstd::prelude::*;

verus! {

/// The strategy that matches by price-time priority.
pub struct OrderMatcherFifo {}

/// Whether a taker on `taker_side` that still wants `want` units at the limit `limit` finds
/// a maker in `book`: the other side has a best level, its price is within the limit, and an
/// order rests there.
pub open spec fn finds_maker(book: BookView, taker_side: AskOrBid, limit: i64, want: i64) -> bool {
    let levels = book.side(taker_side.spec_opposite());
    match best_price(taker_side.spec_opposite(), levels) {
        Some(p) => want > 0 && marketable(taker_side, limit, p) && levels[p].len() > 0
            && levels[p][0].1 > 0,
        None => false,
    }
}

/// The smaller of two numbers.
pub open spec fn smaller(a: i64, b: i64) -> i64 {
    if a < b {
        a
    } else {
        b
    }
}

/// What a taker on `taker_side` does to `book` when it wants `want` units at prices within
/// `limit`: as long as it finds a maker, it takes from the oldest order of the best level
/// as much as it wants and the order has.
pub open spec fn sweep(book: BookView, taker_side: AskOrBid, limit: i64, want: i64) -> Outcome
    decreases want,
{
    if finds_maker(book, taker_side, limit, want) {
        let maker_side = taker_side.spec_opposite();
        let p = best_price(maker_side, book.side(maker_side)).unwrap();
        let maker = book.side(maker_side)[p][0];
        let take = smaller(maker.1, want);
        let rest = sweep(book.fill(maker_side, p, take), taker_side, limit, (want - take) as i64);
        Outcome {
            book: rest.book,
            fills: seq![(maker.0, take)] + rest.fills,
            residual: rest.residual,
        }
    } else {
        Outcome { book, fills: Seq::empty(), residual: want }
    }
}

/// What a limit order does to a book: it sweeps the other side within its price, and what
/// is left of it comes to rest on its own side at its price.
pub open spec fn limit_sweep(
    book: BookView,
    id: OrderId,
    side: AskOrBid,
    price: i64,
    size: i64,
) -> Outcome {
    let swept = sweep(book, side, price, size);
    if swept.residual > 0 {
        Outcome {
            book: swept.book.rest(side, price, id, swept.residual),
            fills: swept.fills,
            residual: swept.residual,
        }
    } else {
        swept
    }
}

/// The limit at which a market order on `side` trades: a bid pays any price and an ask
/// accepts any.
pub open spec fn market_limit(side: AskOrBid) -> i64 {
    match side {
        AskOrBid::Ask => 0,
        AskOrBid::Bid => i64::MAX,
    }
}

/// The outcome of a sweep with the fills that were made before it put in front.
pub open spec fn after_fills(done: Seq<(u64, i64)>, rest: Outcome) -> Outcome {
    Outcome { book: rest.book, fills: done + rest.fills, residual: rest.residual }
}

impl OrderMatcherFifo {
    /// The strategy; it keeps no state.
    pub fn new() -> (matcher: OrderMatcherFifo) {
        OrderMatcherFifo {  }
    }

    /// Sweeps the side opposite to `side` for up to `amount` units at prices within `limit`.
    /// Returns the makers that were consumed, in that order, and the units that are left.
    pub fn sweep_book(orderbook: &mut Orderbook, side: AskOrBid, limit: &Decimal, amount: &Decimal)
        -> (swept: (Vec<(OrderId, Decimal)>, Decimal))
        requires
            old(orderbook).wf(),
            amount.units > 0,
        ensures
            final(orderbook).wf(),
            final(orderbook).symbol == old(orderbook).symbol,
            final(orderbook)@ == sweep(old(orderbook)@, side, limit.units, amount.units).book,
            fills_view(swept.0@) == sweep(old(orderbook)@, side, limit.units, amount.units).fills,
            swept.1.units == sweep(old(orderbook)@, side, limit.units, amount.units).residual,
            0 <= swept.1.units <= amount.units,
            (swept.1.units == amount.units) == (swept.0@.len() == 0),
            !old(orderbook)@.crossed() ==> !final(orderbook)@.crossed(),
            final(orderbook)@.side(side) == old(orderbook)@.side(side),
            forall|p: i64| #[trigger]
                final(orderbook)@.side(side.spec_opposite()).contains_key(p) ==> old(
                    orderbook,
                )@.side(side.spec_opposite()).contains_key(p),
            forall|id: u64| #[trigger]
                final(orderbook)@.index.contains_key(id) ==> old(orderbook)@.index.contains_key(id),
            swept.1.units > 0 ==> forall|p: i64| #[trigger]
                final(orderbook)@.side(side.spec_opposite()).contains_key(p) ==> !marketable(
                    side,
                    limit.units,
                    p,
                ),
    {
        let ghost start = orderbook@;
        let maker_side = side.opposite();
        let mut makers: Vec<(OrderId, Decimal)> = Vec::new();
        let mut remaining: i64 = amount.units;
        loop
            invariant
                orderbook.wf(),
                orderbook.symbol == old(orderbook).symbol,
                maker_side == side.spec_opposite(),
                0 <= remaining <= amount.units,
                (remaining == amount.units) == (makers@.len() == 0),
                sweep(start, side, limit.units, amount.units) == after_fills(
                    fills_view(makers@),
                    sweep(orderbook@, side, limit.units, remaining),
                ),
                orderbook@.side(side) == start.side(side),
                forall|p: i64| #[trigger]
                    orderbook@.side(maker_side).contains_key(p) ==> start.side(
                        maker_side,
                    ).contains_key(p),
                forall|id: u64| #[trigger]
                    orderbook@.index.contains_key(id) ==> start.index.contains_key(id),
            ensures
                !finds_maker(orderbook@, side, limit.units, remaining),
                remaining > 0 ==> forall|p: i64| #[trigger]
                    orderbook@.side(maker_side).contains_key(p) ==> !marketable(
                        side,
                        limit.units,
                        p,
                    ),
            decreases remaining,
        {
            if remaining == 0 {
                break ;
            }
            let best = match orderbook.get_best_price_for_side(maker_side) {
                Some(best) => best,
                None => {
                    break ;
                },
            };
            let within = match side {
                AskOrBid::Bid => best.units <= limit.units,
                AskOrBid::Ask => best.units >= limit.units,
            };
            proof {
                assert(is_best(maker_side, orderbook@.side(maker_side), best.units));
            }
            if !within {
                break ;
            }
            let maker = match orderbook.front_at(maker_side, &best) {
                Some(maker) => maker,
                None => {
                    break ;
                },
            };
            let take = maker.unfilled.smaller_of(&Decimal { units: remaining });
            let ghost before = orderbook@;
            let ghost done = fills_view(makers@);
            proof {
                assert(orderbook@.side(maker_side).contains_key(best.units));
                assert(finds_maker(before, side, limit.units, remaining));
            }
            orderbook.fill_front_at(maker_side, &best, &take);
            makers.push((maker.id, take));
            remaining = remaining - take.units;
            proof {
                let rest = sweep(orderbook@, side, limit.units, remaining);
                let fill = (maker.id, take.units);
                assert(sweep(before, side, limit.units, (remaining + take.units) as i64)
                    == Outcome {
                    book: rest.book,
                    fills: seq![fill] + rest.fills,
                    residual: rest.residual,
                });
                assert(fills_view(makers@) =~= done.push(fill));
                assert(done + (seq![fill] + rest.fills) =~= done.push(fill) + rest.fills);
            }
        }
        proof {
            lemma_subset_uncrossed(start, orderbook@, side);
        }
        (makers, Decimal { units: remaining })
    }
}

impl OrderMatcher for OrderMatcherFifo {
    open spec fn limit_outcome(
        &self,
        book: BookView,
        id: OrderId,
        side: AskOrBid,
        price: i64,
        size: i64,
    ) -> Outcome {
        limit_sweep(book, id, side, price, size)
    }

    open spec fn market_outcome(&self, book: BookView, side: AskOrBid, size: i64) -> Outcome {
        sweep(book, side, market_limit(side), size)
    }

    fn match_limit(
        &self,
        orderbook: &mut Orderbook,
        order_id: &OrderId,
        side: AskOrBid,
        price: &Decimal,
        amount: &Decimal,
    ) -> (matched: Option<Match>) {
        let ghost start = orderbook@;
        let (makers, residual) = OrderMatcherFifo::sweep_book(orderbook, side, price, amount);
        if residual.units > 0 {
            let ghost swept = orderbook@;
            let rest = Order { id: *order_id, unfilled: residual };
            let _ = orderbook.insert_limit(rest, side, *price);
            proof {
                lemma_rest_uncrossed(start, swept, side, price.units, *order_id, residual.units);
            }
        }
        if makers.len() == 0 {
            None
        } else {
            Some(Match { taker: *order_id, makers, fully_filled: residual.units == 0, residual })
        }
    }

    fn match_market(
        &self,
        orderbook: &mut Orderbook,
        order_id: &OrderId,
        side: AskOrBid,
        amount: &Decimal,
    ) -> (matched: Option<Match>) {
        let limit = match side {
            AskOrBid::Ask => Decimal::zero(),
            AskOrBid::Bid => Decimal::max(),
        };
        let (makers, residual) = OrderMatcherFifo::sweep_book(orderbook, side, &limit, amount);
        if makers.len() == 0 {
            None
        } else {
            Some(Match { taker: *order_id, makers, fully_filled: residual.units == 0, residual })
        }
    }
}

} // verus!
